//! What the sender remembers about each transmitted packet.
use vstd::prelude::*;
use crate::types::{FragmentId, MessageId, MonotonicTime, PacketNumber, TransmissionId};

verus! {

/// Logical retransmission record for selective recovery of a reliable fragment.
#[derive(Clone, Eq, PartialEq, Debug)]
pub struct RetransmissionRecord {
    pub message_id: MessageId,
    pub fragment_id: FragmentId,
    pub transmission_id: TransmissionId,
    pub group_id: u16,
    pub order_seq: u32,
    /// How many fragments the logical message has (1 = unfragmented): a
    /// retransmitted fragment carries its set's total on the wire.
    pub total_fragments: u16,
    pub payload: Vec<u8>,
}

/// A retransmission record as plain values.
pub struct RetransmissionView {
    pub message_id: u64,
    pub fragment_id: u16,
    pub transmission_id: u64,
    pub group_id: u16,
    pub order_seq: u32,
    pub total_fragments: u16,
    pub payload: Seq<u8>,
}

impl View for RetransmissionRecord {
    type V = RetransmissionView;

    open spec fn view(&self) -> RetransmissionView {
        RetransmissionView {
            message_id: self.message_id.0,
            fragment_id: self.fragment_id.0,
            transmission_id: self.transmission_id.0,
            group_id: self.group_id,
            order_seq: self.order_seq,
            total_fragments: self.total_fragments,
            payload: self.payload@,
        }
    }
}

impl RetransmissionRecord {
    /// A field-for-field copy.
    pub fn duplicate(&self) -> (r: RetransmissionRecord)
        ensures
            r@ == self@,
    {
        let payload = self.payload.clone();
        assert(payload@ =~= self.payload@);
        RetransmissionRecord {
            message_id: self.message_id,
            fragment_id: self.fragment_id,
            transmission_id: self.transmission_id,
            group_id: self.group_id,
            order_seq: self.order_seq,
            total_fragments: self.total_fragments,
            payload,
        }
    }
}

/// The views of a list of retransmission records.
pub open spec fn frames_view(v: Seq<RetransmissionRecord>) -> Seq<RetransmissionView> {
    v.map_values(|f: RetransmissionRecord| f@)
}

/// Metadata stored per transmitted packet for ACK tracking and loss recovery.
#[derive(Clone, Debug)]
pub struct SentPacketRecord {
    pub packet_number: PacketNumber,
    pub send_time: MonotonicTime,
    pub bytes: usize,
    pub ack_eliciting: bool,
    pub in_flight: bool,
    pub retransmittable_frames: Vec<RetransmissionRecord>,
}

/// The retransmittable frames of `rs`, record after record, as views.
pub open spec fn concat_frames(rs: Seq<SentPacketRecord>) -> Seq<RetransmissionView>
    decreases rs.len(),
{
    if rs.len() == 0 {
        Seq::empty()
    } else {
        concat_frames(rs.drop_last()) + frames_view(rs.last().retransmittable_frames@)
    }
}

/// Appends copies of `record`'s retransmittable frames to `out`.
pub fn append_frames(out: &mut Vec<RetransmissionRecord>, record: &SentPacketRecord)
    ensures
        frames_view(final(out)@) == frames_view(old(out)@) + frames_view(
            record.retransmittable_frames@,
        ),
{
    let ghost start = out@;
    let frames = &record.retransmittable_frames;
    let mut i: usize = 0;
    while i < frames.len()
        invariant
            i <= frames.len(),
            frames_view(out@) == frames_view(start) + frames_view(frames@.take(i as int)),
        decreases frames.len() - i,
    {
        let f = frames[i].duplicate();
        let ghost before = out@;
        out.push(f);
        assert(frames_view(out@) =~= frames_view(before) + seq![f@]);
        assert(frames_view(frames@.take(i + 1)) =~= frames_view(frames@.take(i as int)) + seq![
            frames@[i as int]@,
        ]);
        i = i + 1;
    }
    assert(frames@.take(i as int) =~= frames@);
}

} // verus!
