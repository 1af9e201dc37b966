//! Smart-proxy exporter: what it sends over the control channel.
//!
//! Control channel (`ch_id = 0xFF`):
//! ```text
//! DICT_FRAG: [ 0xFF ][ len ][ 0x01 ][ mcu_ch_id ][ dict_bytes... ]
//! DICT_DONE: [ 0xFF ][ 0x02 ][ 0x02 ][ mcu_ch_id ]
//! ```
//! The `mcu_ch_id` byte identifies which MCU channel the dictionary (or
//! completion marker) belongs to, allowing the host to maintain a separate
//! per-channel dictionary for multi-MCU setups.

use super::buffer::frozen_from_vec;
use super::framing::{
    self, PayloadModel, PayloadTunnelFrame, CTRL_CH, CTRL_DICT_DONE, CTRL_DICT_FRAG, DICT_FRAG_MAX,
};
#[allow(unused_imports)]
use super::framing::PAYLOAD_MAX;
use vstd::prelude::*;

verus! {

/// The control payload that carries a piece of a dictionary.
pub open spec fn fragment_payload(ch_id: u8, piece: Seq<u8>) -> Seq<u8> {
    seq![CTRL_DICT_FRAG, ch_id] + piece
}

/// The control payload that ends a dictionary.
pub open spec fn done_payload(ch_id: u8) -> Seq<u8> {
    seq![CTRL_DICT_DONE, ch_id]
}

/// The length of the first fragment of `dictionary`.
pub open spec fn fragment_len(dictionary: Seq<u8>) -> int {
    if dictionary.len() <= DICT_FRAG_MAX {
        dictionary.len() as int
    } else {
        DICT_FRAG_MAX as int
    }
}

/// The fragments of a dictionary, each as long as allowed but the last.
pub open spec fn dictionary_fragments(ch_id: u8, dictionary: Seq<u8>) -> Seq<PayloadModel>
    decreases dictionary.len(),
{
    if dictionary.len() == 0 {
        Seq::empty()
    } else {
        let n = fragment_len(dictionary);
        seq![
            PayloadModel {
                ch_id: CTRL_CH,
                payload: fragment_payload(ch_id, dictionary.take(n)),
            },
        ] + dictionary_fragments(ch_id, dictionary.skip(n))
    }
}

/// All packets that carry a dictionary: its fragments, and the marker that it
/// is complete.
pub open spec fn dictionary_packets(ch_id: u8, dictionary: Seq<u8>) -> Seq<PayloadModel> {
    dictionary_fragments(ch_id, dictionary).push(
        PayloadModel { ch_id: CTRL_CH, payload: done_payload(ch_id) },
    )
}

/// Encode the MCU dictionary for the control channel.
///
/// Every control frame includes `ch_id` so the host can maintain separate
/// dictionaries for each MCU channel in multi-MCU setups.
///
/// The dictionary is split into fragments of up to [`DICT_FRAG_MAX`] bytes
/// each, sent as `DICT_FRAG` control frames.  A final `DICT_DONE` frame
/// signals completion to the host.
///
/// ## Control payload layout
///
/// ```text
/// DICT_FRAG: [ CTRL_DICT_FRAG ][ ch_id ][ dict_bytes... ]
/// DICT_DONE: [ CTRL_DICT_DONE ][ ch_id ]
/// ```
pub fn send_dictionary(ch_id: u8, dictionary: &[u8]) -> (frames: Vec<PayloadTunnelFrame>)
    ensures
        framing::payload_models(frames@) == dictionary_packets(ch_id, dictionary@),
{
    let mut frames: Vec<PayloadTunnelFrame> = Vec::new();
    let mut pos: usize = 0;
    assert(dictionary@.skip(0) =~= dictionary@);
    assert(framing::payload_models(frames@) + dictionary_fragments(ch_id, dictionary@)
        =~= dictionary_fragments(ch_id, dictionary@));
    while pos < dictionary.len()
        invariant
            pos <= dictionary@.len(),
            framing::payload_models(frames@) + dictionary_fragments(ch_id, dictionary@.skip(pos as int))
                == dictionary_fragments(ch_id, dictionary@),
        decreases dictionary@.len() - pos,
    {
        let left: usize = dictionary.len() - pos;
        let n: usize = if left <= DICT_FRAG_MAX {
            left
        } else {
            DICT_FRAG_MAX
        };
        let mut payload: Vec<u8> = Vec::with_capacity(2 + n);
        payload.push(CTRL_DICT_FRAG);
        payload.push(ch_id);
        payload.extend_from_slice(&dictionary[pos..pos + n]);
        let ghost before = framing::payload_models(frames@);
        let ghost rest = dictionary@.skip(pos as int);
        let ghost packet = PayloadModel { ch_id: CTRL_CH, payload: payload@ };
        assert(payload@ =~= fragment_payload(ch_id, rest.take(n as int)));
        frames.push(PayloadTunnelFrame { ch_id: CTRL_CH, payload: frozen_from_vec(payload) });
        proof {
            assert(framing::payload_models(frames@) =~= before.push(packet));
            assert(rest.skip(n as int) =~= dictionary@.skip(pos + n));
            assert(before + dictionary_fragments(ch_id, rest) =~= before.push(packet)
                + dictionary_fragments(ch_id, rest.skip(n as int)));
        }
        pos += n;
    }
    // Signal end of dictionary for this channel.
    let mut done: Vec<u8> = Vec::with_capacity(2);
    done.push(CTRL_DICT_DONE);
    done.push(ch_id);
    assert(done@ =~= done_payload(ch_id));
    frames.push(PayloadTunnelFrame { ch_id: CTRL_CH, payload: frozen_from_vec(done) });
    assert(framing::payload_models(frames@) =~= dictionary_packets(ch_id, dictionary@));
    frames
}

/// Every packet of a dictionary fits the tunnel: none is over the payload
/// limit, and all go over the control channel.
pub proof fn law_dictionary_packets_fit(ch_id: u8, dictionary: Seq<u8>, i: int)
    requires
        0 <= i < dictionary_packets(ch_id, dictionary).len(),
    ensures
        dictionary_packets(ch_id, dictionary)[i].ch_id == CTRL_CH,
        dictionary_packets(ch_id, dictionary)[i].payload.len() <= PAYLOAD_MAX,
    decreases dictionary.len(),
{
    let n = fragment_len(dictionary);
    if dictionary.len() > 0 && i > 0 {
        law_dictionary_packets_fit(ch_id, dictionary.skip(n), i - 1);
        assert(dictionary_packets(ch_id, dictionary)[i] == dictionary_packets(
            ch_id,
            dictionary.skip(n),
        )[i - 1]);
    }
}

/// What carries a dictionary: packets of the control channel 255, those that
/// hold 1, the channel, and a piece of up to 253 bytes, and at the end one that
/// holds 2 and the channel.  A longer dictionary is cut behind 253 bytes, and
/// the rest follows as if it had come on its own.
pub proof fn law_dictionary_packets(ch_id: u8, piece: Seq<u8>, rest: Seq<u8>)
    requires
        0 < piece.len() <= 253,
        rest.len() > 0 ==> piece.len() == 253,
    ensures
        dictionary_packets(ch_id, Seq::empty()) == seq![
            PayloadModel { ch_id: 255, payload: seq![2u8, ch_id] },
        ],
        dictionary_packets(ch_id, piece + rest) == seq![
            PayloadModel { ch_id: 255, payload: seq![1u8, ch_id] + piece },
        ] + dictionary_packets(ch_id, rest),
{
    let whole = piece + rest;
    let n = piece.len() as int;
    if rest.len() == 0 {
        assert(whole =~= piece);
        assert(rest =~= Seq::empty());
    }
    assert(fragment_len(whole) == n);
    assert(whole.take(n) =~= piece);
    assert(whole.skip(n) =~= rest);
    assert(dictionary_fragments(ch_id, Seq::empty()) =~= Seq::empty());
    assert(dictionary_packets(ch_id, Seq::empty()) =~= seq![
        PayloadModel { ch_id: 255, payload: seq![2u8, ch_id] },
    ]);
    assert(dictionary_packets(ch_id, whole) =~= seq![
        PayloadModel { ch_id: 255, payload: seq![1u8, ch_id] + piece },
    ] + dictionary_packets(ch_id, rest));
}

} // verus!
