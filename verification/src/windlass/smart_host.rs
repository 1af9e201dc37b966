//! Smart-proxy host: answering `identify` locally, and gathering the
//! dictionaries that the exporter forwards.

use super::framing::{CTRL_DICT_DONE, CTRL_DICT_FRAG};
use super::mcu_transport::{self, CMD_IDENTIFY, CMD_IDENTIFY_RESPONSE};
#[allow(unused_imports)]
use super::mcu_transport::IDENTIFY_CHUNK_SIZE;
#[allow(unused_imports)]
use super::smart_exporter;
use super::vlq::{self, encode_vlq_int, parse_vlq_int, VlqError};
use std::collections::HashMap;
use vstd::prelude::*;

verus! {

broadcast use vstd::std_specs::hash::group_hash_axioms;

/// The values of a list of payloads.
pub open spec fn payload_values(payloads: Seq<Vec<u8>>) -> Seq<Seq<u8>> {
    Seq::new(payloads.len(), |i: int| payloads[i]@)
}

/// What a proxy has to hand while it dispatches the commands of one Klipper
/// connection.
pub struct ProxyContext<'c> {
    /// The real MCU's compressed dictionary (used to answer `identify`).
    pub dictionary: &'c [u8],
    /// Decoded command payloads to forward to the exporter.
    pub to_exporter: Vec<Vec<u8>>,
    /// Queue of `identify_response` payloads built during dispatch.
    pub pending_responses: Vec<Vec<u8>>,
}

/// The value of a [`ProxyContext`].
#[verifier::ext_equal]
pub struct ProxyModel {
    pub dictionary: Seq<u8>,
    pub to_exporter: Seq<Seq<u8>>,
    pub pending_responses: Seq<Seq<u8>>,
}

impl<'c> View for ProxyContext<'c> {
    type V = ProxyModel;

    open spec fn view(&self) -> ProxyModel {
        ProxyModel {
            dictionary: self.dictionary@,
            to_exporter: payload_values(self.to_exporter@),
            pending_responses: payload_values(self.pending_responses@),
        }
    }
}

/// The arguments of an `identify` command, offset and count, and the bytes
/// behind them.  The count is taken as one byte.
pub open spec fn identify_arguments(s: Seq<u8>) -> Option<(u32, u8, Seq<u8>)> {
    match vlq::vlq_read(s) {
        Some((offset, r1)) => match vlq::vlq_read(r1) {
            Some((count, r2)) => Some((offset, (count % 256) as u8, r2)),
            None => None,
        },
        None => None,
    }
}

/// The response to an `identify` command.
pub open spec fn identify_answer(dictionary: Seq<u8>, offset: u32, count: u8) -> Seq<u8> {
    mcu_transport::identify_response(
        offset,
        mcu_transport::dictionary_chunk(dictionary, offset as nat, count as nat),
    )
}

/// The command ID at the front of a frame, taken as 16 bits.
pub open spec fn command_id(s: Seq<u8>) -> Option<(u16, Seq<u8>)> {
    match vlq::vlq_read(s) {
        Some((cmd, rest)) => Some(((cmd % 0x1_0000) as u16, rest)),
        None => None,
    }
}

/// Read the command ID at the front of a frame.
fn read_command(frame: &mut &[u8]) -> (res: Result<u16, VlqError>)
    ensures
        match command_id((*old(frame))@) {
            Some((cmd, rest)) => res == Ok::<u16, VlqError>(cmd) && (*final(frame))@ == rest,
            None => res == Err::<u16, VlqError>(VlqError::Truncated) && (*final(frame))@.len() == 0,
        },
{
    match parse_vlq_int(frame) {
        Ok(v) => Ok((v % 0x1_0000) as u16),
        Err(e) => Err(e),
    }
}

impl<'c> ProxyContext<'c> {
    /// A context with nothing dispatched yet.
    pub fn new(dictionary: &'c [u8]) -> (ctx: Self)
        ensures
            ctx@ == (ProxyModel {
                dictionary: dictionary@,
                to_exporter: Seq::empty(),
                pending_responses: Seq::empty(),
            }),
    {
        let ctx = ProxyContext {
            dictionary,
            to_exporter: Vec::new(),
            pending_responses: Vec::new(),
        };
        assert(ctx@.to_exporter =~= Seq::empty());
        assert(ctx@.pending_responses =~= Seq::empty());
        ctx
    }

    /// Dispatch one command frame.  `identify` is answered here; every other
    /// command is forwarded unchanged, its ID included.
    pub fn dispatch_raw(&mut self, frame: &mut &[u8]) -> (res: Result<(), VlqError>)
        ensures
            ({
                let f = (*old(frame))@;
                match command_id(f) {
                    None => res == Err::<(), VlqError>(VlqError::Truncated) && final(self)@ == old(self)@ && (*final(frame))@ == f,
                    Some((cmd, args)) => if cmd == CMD_IDENTIFY {
                        dispatched(old(self)@, args, res, final(self)@, (*final(frame))@)
                    } else {
                        res == Ok::<(), VlqError>(()) && final(self)@ == (ProxyModel {
                            to_exporter: old(self)@.to_exporter.push(f),
                            ..old(self)@
                        }) && (*final(frame))@.len() == 0
                    },
                }
            }),
    {
        let mut probe: &[u8] = *frame;
        let cmd: u16 = match read_command(&mut probe) {
            Ok(c) => c,
            Err(e) => return Err(e),
        };
        if cmd as u32 == CMD_IDENTIFY {
            *frame = probe;
            return self.dispatch(cmd, frame);
        }
        // Forward non-identify commands unchanged (including the command ID).
        let whole: &[u8] = *frame;
        let mut copy: Vec<u8> = Vec::new();
        copy.extend_from_slice(whole);
        let ghost before = self@;
        self.to_exporter.push(copy);
        assert(copy@ =~= whole@);
        assert(self@.to_exporter =~= before.to_exporter.push(whole@));
        *frame = &whole[whole.len()..whole.len()];
        Ok(())
    }

    /// Answer an `identify` command whose arguments `frame` holds; leave any
    /// other command alone.
    pub fn dispatch(&mut self, cmd: u16, frame: &mut &[u8]) -> (res: Result<(), VlqError>)
        ensures
            if cmd == CMD_IDENTIFY {
                dispatched(old(self)@, (*old(frame))@, res, final(self)@, (*final(frame))@)
            } else {
                res == Ok::<(), VlqError>(()) && final(self)@ == old(self)@ && (*final(frame))@
                    == (*old(frame))@
            },
    {
        if cmd as u32 != CMD_IDENTIFY {
            return Ok(());
        }
        let offset: u32 = match parse_vlq_int(frame) {
            Ok(v) => v,
            Err(e) => return Err(e),
        };
        let count: u8 = match parse_vlq_int(frame) {
            Ok(v) => (v % 256) as u8,
            Err(e) => return Err(e),
        };
        let resp: Vec<u8> = build_identify_answer(self.dictionary, offset, count);
        let ghost before = self@;
        let ghost answer = resp@;
        self.pending_responses.push(resp);
        assert(self@.pending_responses =~= before.pending_responses.push(answer));
        Ok(())
    }
}

/// What handling the arguments of an `identify` command comes to: where they
/// are complete, exactly one response is queued.
pub open spec fn dispatched(
    before: ProxyModel,
    args: Seq<u8>,
    res: Result<(), VlqError>,
    after: ProxyModel,
    left: Seq<u8>,
) -> bool {
    match identify_arguments(args) {
        Some((offset, count, rest)) => {
            &&& res == Ok::<(), VlqError>(())
            &&& after == (ProxyModel {
                pending_responses: before.pending_responses.push(
                    identify_answer(before.dictionary, offset, count),
                ),
                ..before
            })
            &&& left == rest
        },
        None => {
            &&& res == Err::<(), VlqError>(VlqError::Truncated)
            &&& after == before
            &&& left.len() == 0
        },
    }
}

/// Build the `identify_response` for a request:
/// `[cmd=0 VLQ][offset VLQ][data_len VLQ][data bytes]`.
pub fn build_identify_answer(dictionary: &[u8], offset: u32, count: u8) -> (resp: Vec<u8>)
    ensures
        resp@ == identify_answer(dictionary@, offset, count),
{
    let len: usize = dictionary.len();
    let mut resp: Vec<u8> = Vec::new();
    encode_vlq_int(&mut resp, CMD_IDENTIFY_RESPONSE);
    encode_vlq_int(&mut resp, offset);
    if offset as u64 <= len as u64 {
        let start: usize = offset as usize;
        let left: usize = len - start;
        let n: usize = if left < count as usize {
            left
        } else {
            count as usize
        };
        encode_vlq_int(&mut resp, n as u32);
        resp.extend_from_slice(&dictionary[start..start + n]);
        assert(dictionary@.subrange(start as int, start + n) == mcu_transport::dictionary_chunk(
            dictionary@,
            offset as nat,
            count as nat,
        ));
    } else {
        encode_vlq_int(&mut resp, 0);
    }
    assert(resp@ =~= identify_answer(dictionary@, offset, count));
    resp
}

/// A proxy answers the requests of a dictionary fetch with the chunks that
/// they ask for.
pub proof fn law_identify_request_is_answered(dictionary: Seq<u8>, offset: u32)
    ensures
        ({
            let req = mcu_transport::identify_request(offset, IDENTIFY_CHUNK_SIZE);
            &&& command_id(req) matches Some((cmd, args)) && cmd == CMD_IDENTIFY
                && identify_arguments(args) == Some(
                (offset, IDENTIFY_CHUNK_SIZE as u8, Seq::<u8>::empty()),
            )
            &&& mcu_transport::identify_chunk(
                identify_answer(dictionary, offset, IDENTIFY_CHUNK_SIZE as u8),
                offset,
            ) == Some(
                mcu_transport::dictionary_chunk(
                    dictionary,
                    offset as nat,
                    IDENTIFY_CHUNK_SIZE as nat,
                ),
            )
        }),
{
    let req = mcu_transport::identify_request(offset, IDENTIFY_CHUNK_SIZE);
    let r2 = vlq::vlq(IDENTIFY_CHUNK_SIZE) + Seq::<u8>::empty();
    let r1 = vlq::vlq(offset) + r2;
    assert(req =~= vlq::vlq(CMD_IDENTIFY) + r1);
    vlq::law_vlq_roundtrip(CMD_IDENTIFY, r1);
    vlq::law_vlq_roundtrip(offset, r2);
    vlq::law_vlq_roundtrip(IDENTIFY_CHUNK_SIZE, Seq::<u8>::empty());
    let chunk = mcu_transport::dictionary_chunk(
        dictionary,
        offset as nat,
        IDENTIFY_CHUNK_SIZE as nat,
    );
    mcu_transport::law_response_is_read_back(offset, chunk, offset);
}

/// A dictionary fetch whose requests a proxy answers, with `fetched` already
/// there: the dictionary that it ends with, within `requests` requests.
pub open spec fn fetch_from_proxy(
    dictionary: Seq<u8>,
    fetched: Seq<u8>,
    requests: nat,
) -> Option<Seq<u8>>
    decreases requests,
{
    let offset = fetched.len() as u32;
    let answer = identify_answer(dictionary, offset, IDENTIFY_CHUNK_SIZE as u8);
    if requests == 0 {
        None
    } else {
        match mcu_transport::identify_chunk(answer, offset) {
            None => None,
            Some(chunk) => if chunk.len() < IDENTIFY_CHUNK_SIZE {
                Some(fetched + chunk)
            } else {
                fetch_from_proxy(dictionary, fetched + chunk, (requests - 1) as nat)
            },
        }
    }
}

/// A fetch that a proxy answers ends, after as many requests as there are
/// full chunks and one more, with the proxy's dictionary.
pub proof fn law_proxy_hands_out_its_dictionary(dictionary: Seq<u8>)
    requires
        dictionary.len() <= u32::MAX,
    ensures
        fetch_from_proxy(
            dictionary,
            Seq::empty(),
            dictionary.len() / (IDENTIFY_CHUNK_SIZE as nat) + 1,
        ) == Some(dictionary),
{
    assert(dictionary.take(0) =~= Seq::<u8>::empty());
    lemma_fetch_goes_on(dictionary, 0, dictionary.len() / (IDENTIFY_CHUNK_SIZE as nat) + 1);
}

proof fn lemma_fetch_goes_on(dictionary: Seq<u8>, offset: u32, requests: nat)
    requires
        offset <= dictionary.len() <= u32::MAX,
        requests * IDENTIFY_CHUNK_SIZE > dictionary.len() - offset,
    ensures
        fetch_from_proxy(dictionary, dictionary.take(offset as int), requests) == Some(dictionary),
    decreases requests,
{
    mcu_transport::law_fetch_recovers_dictionary(dictionary, offset);
    let chunk = mcu_transport::dictionary_chunk(
        dictionary,
        offset as nat,
        IDENTIFY_CHUNK_SIZE as nat,
    );
    if chunk.len() >= IDENTIFY_CHUNK_SIZE {
        lemma_fetch_goes_on(
            dictionary,
            (offset + IDENTIFY_CHUNK_SIZE) as u32,
            (requests - 1) as nat,
        );
    }
}

/// What a control payload came to.
#[derive(Debug)]
pub enum ControlOutcome {
    /// The payload lacks its type or its channel byte.
    TooShort,
    /// A piece of this channel's dictionary was kept.
    Stored(u8),
    /// This channel's dictionary is complete.
    Ready(u8, Vec<u8>),
    /// A dictionary ended for a channel that is not served.
    UnknownChannel(u8),
    /// The payload's type is not known.
    UnknownType(u8),
}

/// The value of a [`ControlOutcome`].
#[verifier::ext_equal]
pub enum ControlModel {
    TooShort,
    Stored(u8),
    Ready(u8, Seq<u8>),
    UnknownChannel(u8),
    UnknownType(u8),
}

impl View for ControlOutcome {
    type V = ControlModel;

    open spec fn view(&self) -> ControlModel {
        match self {
            ControlOutcome::TooShort => ControlModel::TooShort,
            ControlOutcome::Stored(c) => ControlModel::Stored(*c),
            ControlOutcome::Ready(c, d) => ControlModel::Ready(*c, d@),
            ControlOutcome::UnknownChannel(c) => ControlModel::UnknownChannel(*c),
            ControlOutcome::UnknownType(t) => ControlModel::UnknownType(*t),
        }
    }
}

/// What the gatherer holds after a control payload.
pub open spec fn held_after(held: Map<u8, Seq<u8>>, payload: Seq<u8>) -> Map<u8, Seq<u8>> {
    if payload.len() < 2 {
        held
    } else if payload[0] == CTRL_DICT_FRAG {
        held.insert(payload[1], held[payload[1]] + payload.skip(2))
    } else if payload[0] == CTRL_DICT_DONE {
        held.insert(payload[1], Seq::empty())
    } else {
        held
    }
}

/// What a control payload comes to, given what is held and which channels are
/// served.
pub open spec fn control_outcome(
    held: Map<u8, Seq<u8>>,
    served: Seq<u8>,
    payload: Seq<u8>,
) -> ControlModel {
    if payload.len() < 2 {
        ControlModel::TooShort
    } else if payload[0] == CTRL_DICT_FRAG {
        ControlModel::Stored(payload[1])
    } else if payload[0] == CTRL_DICT_DONE {
        if served.contains(payload[1]) {
            ControlModel::Ready(payload[1], held[payload[1]])
        } else {
            ControlModel::UnknownChannel(payload[1])
        }
    } else {
        ControlModel::UnknownType(payload[0])
    }
}

/// Accumulates per-channel `DICT_FRAG` control payloads and gives out each
/// channel's complete dictionary when `DICT_DONE` arrives.
///
/// Each control payload includes the MCU `ch_id` as the second byte so
/// the gatherer can route fragments to the correct per-channel accumulator:
///
/// ```text
/// DICT_FRAG payload: [ CTRL_DICT_FRAG ][ ch_id ][ dict_bytes... ]
/// DICT_DONE payload: [ CTRL_DICT_DONE ][ ch_id ]
/// ```
pub struct DictionaryGatherer {
    /// Per-channel dictionary accumulation buffers.
    dicts: HashMap<u8, Vec<u8>>,
    /// The channels whose dictionaries are wanted.
    served: Vec<u8>,
}

impl View for DictionaryGatherer {
    type V = Map<u8, Seq<u8>>;

    /// For every channel the bytes held of its dictionary.
    closed spec fn view(&self) -> Map<u8, Seq<u8>> {
        Map::new(
            |c: u8| true,
            |c: u8|
                if self.dicts@.contains_key(c) {
                    self.dicts@[c]@
                } else {
                    Seq::<u8>::empty()
                },
        )
    }
}

impl DictionaryGatherer {
    /// The channels whose dictionaries are wanted.
    pub closed spec fn served_channels(&self) -> Seq<u8> {
        self.served@
    }

    /// A gatherer that holds nothing yet.
    pub fn new(served: Vec<u8>) -> (g: Self)
        ensures
            g.served_channels() == served@,
            forall|c: u8| g@.contains_key(c) && #[trigger] g@[c] == Seq::<u8>::empty(),
    {
        DictionaryGatherer { dicts: HashMap::new(), served }
    }

    /// A control payload arrived.
    pub fn on_control(&mut self, payload: &[u8]) -> (out: ControlOutcome)
        ensures
            final(self).served_channels() == old(self).served_channels(),
            final(self)@ == held_after(old(self)@, payload@),
            out@ == control_outcome(old(self)@, old(self).served_channels(), payload@),
    {
        if payload.len() < 2 {
            return ControlOutcome::TooShort;
        }
        let ctrl_type: u8 = payload[0];
        let ch_id: u8 = payload[1];
        if ctrl_type == CTRL_DICT_FRAG {
            let mut dict: Vec<u8> = match self.dicts.remove(&ch_id) {
                Some(d) => d,
                None => Vec::new(),
            };
            assert(dict@ =~= old(self)@[ch_id]);
            dict.extend_from_slice(&payload[2..payload.len()]);
            assert(dict@ =~= old(self)@[ch_id] + payload@.skip(2));
            self.dicts.insert(ch_id, dict);
            assert(self@ =~= held_after(old(self)@, payload@));
            ControlOutcome::Stored(ch_id)
        } else if ctrl_type == CTRL_DICT_DONE {
            let dict: Vec<u8> = match self.dicts.remove(&ch_id) {
                Some(d) => d,
                None => Vec::new(),
            };
            assert(dict@ =~= old(self)@[ch_id]);
            assert(self@ =~= held_after(old(self)@, payload@));
            if self.serves(ch_id) {
                ControlOutcome::Ready(ch_id, dict)
            } else {
                ControlOutcome::UnknownChannel(ch_id)
            }
        } else {
            ControlOutcome::UnknownType(ctrl_type)
        }
    }

    /// Whether a channel's dictionary is wanted.
    fn serves(&self, ch_id: u8) -> (yes: bool)
        ensures
            yes == self.served@.contains(ch_id),
    {
        let mut i: usize = 0;
        while i < self.served.len()
            invariant
                i <= self.served@.len(),
                forall|k: int| 0 <= k < i ==> self.served@[k] != ch_id,
            decreases self.served@.len() - i,
        {
            if self.served[i] == ch_id {
                return true;
            }
            i += 1;
        }
        false
    }
}

/// What is held after a run of control payloads.
pub open spec fn held_after_all(
    held: Map<u8, Seq<u8>>,
    payloads: Seq<Seq<u8>>,
) -> Map<u8, Seq<u8>>
    decreases payloads.len(),
{
    if payloads.len() == 0 {
        held
    } else {
        held_after_all(held_after(held, payloads[0]), payloads.skip(1))
    }
}

/// The payloads of a dictionary's fragments.
pub open spec fn fragment_payloads(ch_id: u8, dictionary: Seq<u8>) -> Seq<Seq<u8>> {
    let fragments = smart_exporter::dictionary_fragments(ch_id, dictionary);
    Seq::new(fragments.len(), |i: int| fragments[i].payload)
}

/// A dictionary crosses the link whole: a gatherer that holds nothing of a
/// served channel and is fed the packets of that channel's dictionary gives
/// out exactly that dictionary at the last of them.
pub proof fn law_dictionary_crosses_the_link(
    held: Map<u8, Seq<u8>>,
    served: Seq<u8>,
    ch_id: u8,
    dictionary: Seq<u8>,
)
    requires
        held.contains_key(ch_id),
        held[ch_id] == Seq::<u8>::empty(),
        served.contains(ch_id),
    ensures
        ({
            let after = held_after_all(held, fragment_payloads(ch_id, dictionary));
            let done = smart_exporter::done_payload(ch_id);
            &&& control_outcome(after, served, done) == ControlModel::Ready(ch_id, dictionary)
            &&& held_after(after, done) == held
        }),
{
    lemma_fragments_add_up(held, ch_id, dictionary);
    let after = held_after_all(held, fragment_payloads(ch_id, dictionary));
    assert(held[ch_id] + dictionary =~= dictionary);
    assert(held_after(after, smart_exporter::done_payload(ch_id)) =~= held);
}

proof fn lemma_fragments_add_up(held: Map<u8, Seq<u8>>, ch_id: u8, dictionary: Seq<u8>)
    requires
        held.contains_key(ch_id),
    ensures
        held_after_all(held, fragment_payloads(ch_id, dictionary)) == held.insert(
            ch_id,
            held[ch_id] + dictionary,
        ),
    decreases dictionary.len(),
{
    let ps = fragment_payloads(ch_id, dictionary);
    if dictionary.len() == 0 {
        assert(held[ch_id] + dictionary =~= held[ch_id]);
        assert(held.insert(ch_id, held[ch_id]) =~= held);
    } else {
        let n = smart_exporter::fragment_len(dictionary);
        let first = dictionary.take(n);
        let rest = dictionary.skip(n);
        let p = smart_exporter::fragment_payload(ch_id, first);
        assert(ps[0] == p);
        assert(p.skip(2) =~= first);
        assert(ps.skip(1) =~= fragment_payloads(ch_id, rest));
        let next = held_after(held, p);
        lemma_fragments_add_up(next, ch_id, rest);
        assert(held[ch_id] + first + rest =~= held[ch_id] + dictionary);
        assert(next.insert(ch_id, next[ch_id] + rest) =~= held.insert(
            ch_id,
            held[ch_id] + dictionary,
        ));
    }
}

/// A control payload is for a channel.
pub open spec fn is_for(payload: Seq<u8>, ch_id: u8) -> bool {
    payload.len() >= 2 && payload[1] == ch_id
}

/// The control payloads of a run that are for a channel, in order.
pub open spec fn addressed(payloads: Seq<Seq<u8>>, ch_id: u8) -> Seq<Seq<u8>>
    decreases payloads.len(),
{
    if payloads.len() == 0 {
        Seq::empty()
    } else if is_for(payloads.last(), ch_id) {
        addressed(payloads.drop_last(), ch_id).push(payloads.last())
    } else {
        addressed(payloads.drop_last(), ch_id)
    }
}

/// What each control payload of a run comes to.
pub open spec fn control_outcomes(
    held: Map<u8, Seq<u8>>,
    served: Seq<u8>,
    payloads: Seq<Seq<u8>>,
) -> Seq<ControlModel> {
    Seq::new(
        payloads.len(),
        |i: int| control_outcome(held_after_all(held, payloads.take(i)), served, payloads[i]),
    )
}

/// A dictionary of this channel is given out.
pub open spec fn gives_out(outcome: ControlModel, ch_id: u8) -> bool {
    outcome matches ControlModel::Ready(c, _) && c == ch_id
}

/// Dictionaries of several channels cross the link however their packets are
/// interleaved: where the payloads for a channel are, in order, those of its
/// dictionary, whatever else stands between them, exactly that dictionary is
/// given out for it, once: at its end notice, when all its fragments have come,
/// and not before.
pub proof fn law_interleaved_dictionaries_cross_the_link(
    held: Map<u8, Seq<u8>>,
    served: Seq<u8>,
    payloads: Seq<Seq<u8>>,
    ch_id: u8,
    dictionary: Seq<u8>,
)
    requires
        held.contains_key(ch_id),
        held[ch_id] == Seq::<u8>::empty(),
        served.contains(ch_id),
        addressed(payloads, ch_id) == fragment_payloads(ch_id, dictionary).push(
            smart_exporter::done_payload(ch_id),
        ),
    ensures
        exists|i: int|
            0 <= i < payloads.len() && #[trigger] payloads[i] == smart_exporter::done_payload(ch_id)
                && addressed(payloads.take(i), ch_id) == fragment_payloads(ch_id, dictionary)
                && control_outcomes(held, served, payloads)[i] == ControlModel::Ready(
                ch_id,
                dictionary,
            ) && (forall|j: int|
                0 <= j < payloads.len() && j != i ==> !gives_out(
                    #[trigger] control_outcomes(held, served, payloads)[j],
                    ch_id,
                )),
{
    let fragments = fragment_payloads(ch_id, dictionary);
    let done = smart_exporter::done_payload(ch_id);
    let outcomes = control_outcomes(held, served, payloads);
    lemma_last_addressed(payloads, ch_id);
    let i = choose|i: int|
        0 <= i < payloads.len() && #[trigger] payloads[i] == addressed(payloads, ch_id).last()
            && addressed(payloads.take(i), ch_id) == addressed(payloads, ch_id).drop_last() && (
        forall|j: int| i < j < payloads.len() ==> !is_for(#[trigger] payloads[j], ch_id));
    assert(fragments.push(done).drop_last() =~= fragments);
    lemma_only_own_payloads_count(held, payloads.take(i), ch_id);
    lemma_fragments_add_up(held, ch_id, dictionary);
    assert(held[ch_id] + dictionary =~= dictionary);
    assert(outcomes[i] == ControlModel::Ready(ch_id, dictionary));
    assert forall|j: int| 0 <= j < payloads.len() && j != i implies !gives_out(
        #[trigger] outcomes[j],
        ch_id,
    ) by {
        if gives_out(outcomes[j], ch_id) {
            assert(is_for(payloads[j], ch_id));
            assert(payloads[j] == payloads.take(i)[j]);
            lemma_addressed_holds(payloads.take(i), ch_id, j);
            let k = choose|k: int| 0 <= k < fragments.len() && fragments[k] == payloads[j];
            lemma_fragments_are_no_end(ch_id, dictionary, k);
        }
    }
}

/// The last payload for a channel stands somewhere, behind all others for it.
proof fn lemma_last_addressed(payloads: Seq<Seq<u8>>, ch_id: u8)
    requires
        addressed(payloads, ch_id).len() > 0,
    ensures
        exists|i: int|
            0 <= i < payloads.len() && #[trigger] payloads[i] == addressed(payloads, ch_id).last()
                && addressed(payloads.take(i), ch_id) == addressed(payloads, ch_id).drop_last() && (
            forall|j: int| i < j < payloads.len() ==> !is_for(#[trigger] payloads[j], ch_id)),
    decreases payloads.len(),
{
    let front = payloads.drop_last();
    let n = payloads.len() - 1;
    if is_for(payloads.last(), ch_id) {
        assert(payloads.take(n) =~= front);
        assert(addressed(front, ch_id).push(payloads.last()).drop_last() =~= addressed(
            front,
            ch_id,
        ));
        assert(payloads[n] == addressed(payloads, ch_id).last());
    } else {
        lemma_last_addressed(front, ch_id);
        let i = choose|i: int|
            0 <= i < front.len() && #[trigger] front[i] == addressed(front, ch_id).last()
                && addressed(front.take(i), ch_id) == addressed(front, ch_id).drop_last() && (
            forall|j: int| i < j < front.len() ==> !is_for(#[trigger] front[j], ch_id));
        assert(front.take(i) =~= payloads.take(i));
        assert(payloads[i] == front[i]);
        assert forall|j: int| i < j < payloads.len() implies !is_for(
            #[trigger] payloads[j],
            ch_id,
        ) by {
            if j < n {
                assert(front[j] == payloads[j]);
            }
        }
    }
}

/// A payload for a channel is among those for it.
proof fn lemma_addressed_holds(payloads: Seq<Seq<u8>>, ch_id: u8, j: int)
    requires
        0 <= j < payloads.len(),
        is_for(payloads[j], ch_id),
    ensures
        exists|k: int|
            0 <= k < addressed(payloads, ch_id).len() && addressed(payloads, ch_id)[k]
                == payloads[j],
    decreases payloads.len(),
{
    let all = addressed(payloads, ch_id);
    let front = payloads.drop_last();
    if j == payloads.len() - 1 {
        assert(all[all.len() - 1] == payloads[j]);
    } else {
        lemma_addressed_holds(front, ch_id, j);
        let k = choose|k: int|
            0 <= k < addressed(front, ch_id).len() && addressed(front, ch_id)[k] == front[j];
        assert(all[k] == payloads[j]);
    }
}

/// No fragment is an end notice.
proof fn lemma_fragments_are_no_end(ch_id: u8, dictionary: Seq<u8>, k: int)
    requires
        0 <= k < fragment_payloads(ch_id, dictionary).len(),
    ensures
        fragment_payloads(ch_id, dictionary)[k][0] == CTRL_DICT_FRAG,
    decreases dictionary.len(),
{
    let rest = dictionary.skip(smart_exporter::fragment_len(dictionary));
    if k > 0 {
        lemma_fragments_are_no_end(ch_id, rest, k - 1);
        assert(fragment_payloads(ch_id, dictionary)[k] == fragment_payloads(ch_id, rest)[k - 1]);
    }
}

proof fn lemma_held_after_one_more(held: Map<u8, Seq<u8>>, payloads: Seq<Seq<u8>>)
    requires
        payloads.len() > 0,
    ensures
        held_after_all(held, payloads) == held_after(
            held_after_all(held, payloads.drop_last()),
            payloads.last(),
        ),
    decreases payloads.len(),
{
    let tail = payloads.skip(1);
    if payloads.len() == 1 {
        assert(tail =~= Seq::empty());
        assert(payloads.drop_last() =~= Seq::empty());
        assert(held_after_all(held_after(held, payloads[0]), tail) == held_after(held, payloads[0]));
    } else {
        lemma_held_after_one_more(held_after(held, payloads[0]), tail);
        assert(tail.drop_last() =~= payloads.drop_last().skip(1));
    }
}

/// What is held of a channel depends on the payloads for it alone.
proof fn lemma_only_own_payloads_count(
    held: Map<u8, Seq<u8>>,
    payloads: Seq<Seq<u8>>,
    ch_id: u8,
)
    ensures
        held_after_all(held, payloads)[ch_id] == held_after_all(
            held,
            addressed(payloads, ch_id),
        )[ch_id],
    decreases payloads.len(),
{
    if payloads.len() > 0 {
        let front = payloads.drop_last();
        let last = payloads.last();
        lemma_only_own_payloads_count(held, front, ch_id);
        lemma_held_after_one_more(held, payloads);
        if is_for(last, ch_id) {
            let own = addressed(payloads, ch_id);
            lemma_held_after_one_more(held, own);
            assert(own.drop_last() =~= addressed(front, ch_id));
        } else {
            law_channels_are_independent(held_after_all(held, front), last, ch_id);
        }
    }
}

/// Channels are independent: a control payload for one channel leaves what is
/// held of every other as it was.
pub proof fn law_channels_are_independent(held: Map<u8, Seq<u8>>, payload: Seq<u8>, other: u8)
    requires
        payload.len() >= 2 ==> payload[1] != other,
    ensures
        held_after(held, payload)[other] == held[other],
        held_after(held, payload).contains_key(other) == held.contains_key(other),
{
}

/// A command is known by the ID in front of it: the ID that is read from an
/// encoded one is that ID, and what follows it is left.
pub proof fn law_command_is_known_by_its_id(v: u32, rest: Seq<u8>)
    requires
        v < 0x1_0000,
    ensures
        command_id(vlq::vlq(v) + rest) == Some((v as u16, rest)),
{
    vlq::law_vlq_roundtrip(v, rest);
}

/// Only `identify` is answered here: of the commands, just the one whose ID is
/// 1 is taken for it, whatever its arguments.
pub proof fn law_only_identify_is_answered(v: u32, rest: Seq<u8>)
    requires
        v < 0x1_0000,
    ensures
        (command_id(vlq::vlq(v) + rest) matches Some((cmd, _)) && cmd == CMD_IDENTIFY) <==> v == 1,
{
    vlq::law_vlq_roundtrip(v, rest);
}

/// A frame that ends inside its ID holds no command.
pub proof fn law_unfinished_id_is_no_command(s: Seq<u8>)
    requires
        forall|i: int| 0 <= i < s.len() ==> #[trigger] s[i] >= 128,
    ensures
        command_id(s) is None,
{
    vlq::law_unfinished_integer_is_not_read(s);
}

/// The arguments of a request are read as they were written, and what follows
/// them is left.
pub proof fn law_identify_arguments_are_read(offset: u32, count: u8, rest: Seq<u8>)
    ensures
        identify_arguments(vlq::vlq(offset) + vlq::vlq(count as u32) + rest) == Some(
            (offset, count, rest),
        ),
{
    let r = vlq::vlq(count as u32) + rest;
    assert(vlq::vlq(offset) + vlq::vlq(count as u32) + rest =~= vlq::vlq(offset) + r);
    vlq::law_vlq_roundtrip(offset, r);
    vlq::law_vlq_roundtrip(count as u32, rest);
}

/// A request is answered with what there is of the wanted range: as many bytes
/// of the dictionary as were asked for, from the offset on, fewer only where it
/// ends, none where the offset lies behind the end; under the offset asked for.
pub proof fn law_answer_holds_the_wanted_range(dictionary: Seq<u8>, offset: u32, count: u8)
    ensures
        ({
            let left = if offset <= dictionary.len() {
                dictionary.len() - offset
            } else {
                0
            };
            let n = if count <= left {
                count as int
            } else {
                left
            };
            mcu_transport::identify_chunk(
                identify_answer(dictionary, offset, count),
                offset,
            ) matches Some(chunk) && chunk.len() == n && (forall|i: int|
                0 <= i < n ==> #[trigger] chunk[i] == dictionary[offset + i])
        }),
{
    mcu_transport::law_response_is_read_back(
        offset,
        mcu_transport::dictionary_chunk(dictionary, offset as nat, count as nat),
        offset,
    );
}

/// A request is answered here and nowhere else: just one response is queued,
/// nothing is forwarded, and the dictionary stays.
pub proof fn law_identify_is_answered_here(
    before: ProxyModel,
    offset: u32,
    count: u8,
    rest: Seq<u8>,
    res: Result<(), VlqError>,
    after: ProxyModel,
    left: Seq<u8>,
)
    requires
        dispatched(
            before,
            vlq::vlq(offset) + vlq::vlq(count as u32) + rest,
            res,
            after,
            left,
        ),
    ensures
        res is Ok,
        left == rest,
        after.to_exporter == before.to_exporter,
        after.dictionary == before.dictionary,
        after.pending_responses.len() == before.pending_responses.len() + 1,
        after.pending_responses.drop_last() == before.pending_responses,
        after.pending_responses.last() == identify_answer(before.dictionary, offset, count),
{
    law_identify_arguments_are_read(offset, count, rest);
    assert(after.pending_responses.drop_last() =~= before.pending_responses);
}

/// What control payloads do: a fragment is kept behind what is held of its
/// channel, an end notice gives that out, if the channel is served, and starts
/// its dictionary over, and any other payload is reported and changes nothing.
pub proof fn law_control_payloads(held: Map<u8, Seq<u8>>, served: Seq<u8>, payload: Seq<u8>)
    ensures
        ({
            let after = held_after(held, payload);
            let outcome = control_outcome(held, served, payload);
            if payload.len() < 2 {
                outcome is TooShort && after == held
            } else if payload[0] == 1 {
                &&& outcome == ControlModel::Stored(payload[1])
                &&& after[payload[1]] == held[payload[1]] + payload.skip(2)
            } else if payload[0] == 2 {
                &&& outcome == (if served.contains(payload[1]) {
                    ControlModel::Ready(payload[1], held[payload[1]])
                } else {
                    ControlModel::UnknownChannel(payload[1])
                })
                &&& after[payload[1]].len() == 0
            } else {
                outcome == ControlModel::UnknownType(payload[0]) && after == held
            }
        }),
{
}

/// A request that ends too soon, inside its offset or its count, is an error,
/// is taken off whole, and changes nothing.
pub proof fn law_unfinished_request_is_an_error(
    before: ProxyModel,
    offset: u32,
    part: Seq<u8>,
    args: Seq<u8>,
    res: Result<(), VlqError>,
    after: ProxyModel,
    left: Seq<u8>,
)
    requires
        forall|i: int| 0 <= i < part.len() ==> #[trigger] part[i] >= 128,
        args == part || args == vlq::vlq(offset) + part,
        dispatched(before, args, res, after, left),
    ensures
        res is Err,
        after == before,
        left.len() == 0,
{
    vlq::law_unfinished_integer_is_not_read(part);
    vlq::law_vlq_roundtrip(offset, part);
}

} // verus!
