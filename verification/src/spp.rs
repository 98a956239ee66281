//! The serial-port (SPP) link to an Android phone: each protocol message
//! travels as one line of base64 text ended by a newline.
use vstd::prelude::*;
use crate::base64_codec::{base64_decode, base64_encode, base64_standard_decoded, base64_standard_encoded, is_base64_symbol};
use crate::bytes_util::{copy_range, extend_bytes};
use crate::search::{first_index, lemma_first_index_at};
use crate::text::concat;

verus! {

/// The newline byte that ends a line.
pub const NEWLINE: u8 = 10;

/// Whether a byte is the newline.
pub open spec fn is_newline() -> spec_fn(u8) -> bool {
    |b: u8| b == NEWLINE
}

/// The bytes received and not yet taken as a line.
pub struct SppLineBuffer {
    pending: Vec<u8>,
}

impl View for SppLineBuffer {
    type V = Seq<u8>;

    closed spec fn view(&self) -> Seq<u8> {
        self.pending@
    }
}

/// The line at the front of `pending`, if it holds a newline: the bytes
/// before the first newline, and what follows that newline.
pub open spec fn first_line(pending: Seq<u8>) -> Option<(Seq<u8>, Seq<u8>)> {
    let p = first_index(pending, is_newline());
    if p >= 0 {
        Some((pending.subrange(0, p), pending.subrange(p + 1, pending.len() as int)))
    } else {
        None
    }
}

impl SppLineBuffer {
    /// An empty buffer.
    pub fn new() -> (b: SppLineBuffer)
        ensures
            b@ == Seq::<u8>::empty(),
    {
        SppLineBuffer { pending: Vec::new() }
    }

    /// Appends received bytes.
    pub fn push(&mut self, data: &[u8])
        ensures
            final(self)@ == old(self)@ + data@,
    {
        extend_bytes(&mut self.pending, data);
    }

    /// Takes the next complete line (without its newline); nothing until a
    /// newline has arrived.
    pub fn take_line(&mut self) -> (line: Option<Vec<u8>>)
        ensures
            match first_line(old(self)@) {
                Some((l, rest)) => line matches Some(v) && v@ == l && final(self)@ == rest,
                None => line is None && final(self)@ == old(self)@,
            },
    {
        let ghost before = self.pending@;
        let n = self.pending.len();
        let mut i: usize = 0;
        while i < n
            invariant
                n == self.pending@.len(),
                self.pending@ == before,
                before == old(self)@,
                i <= n,
                forall|k: int| 0 <= k < i ==> !is_newline()(#[trigger] before[k]),
            decreases n - i,
        {
            if self.pending[i] == NEWLINE {
                proof {
                    lemma_first_index_at(before, is_newline(), i as int);
                }
                let line = copy_range(self.pending.as_slice(), 0, i);
                let rest = copy_range(self.pending.as_slice(), i + 1, n);
                self.pending = rest;
                return Some(line);
            }
            i = i + 1;
        }
        proof {
            lemma_first_index_at(before, is_newline(), i as int);
        }
        None
    }
}

/// The SDP record of the wireless iAP2 service, up to its service UUID.
pub const IAP2_SDP_RECORD_HEAD: &'static str = r#"<?xml version="1.0" encoding="UTF-8" ?>
<record>
    <attribute id="0x0001"><sequence><uuid value=""#;

/// The SDP record of the wireless iAP2 service after its service UUID: L2CAP
/// and RFCOMM channel 1, the public browse group, English language base,
/// service availability, the serial-port profile version and the name.
pub const IAP2_SDP_RECORD_TAIL: &'static str = r#"" /></sequence></attribute>
    <attribute id="0x0004"><sequence>
        <sequence><uuid value="0x0100" /></sequence>
        <sequence><uuid value="0x0003" /><uint8 value="0x01" /></sequence>
    </sequence></attribute>
    <attribute id="0x0005"><sequence><uuid value="0x1002" /></sequence></attribute>
    <attribute id="0x0006"><sequence>
        <uint16 value="0x656e" />
        <uint16 value="0x006a" />
        <uint16 value="0x0100" />
    </sequence></attribute>
    <attribute id="0x0008"><uint8 value="0xff" /></attribute>
    <attribute id="0x0009"><sequence>
        <sequence><uuid value="0x1101" /><uint16 value="0x0100" /></sequence>
    </sequence></attribute>
    <attribute id="0x0100"><text value="Wireless iAP" /></attribute>
</record>
"#;

/// The SDP record of the serial-port service, up to its display name.
pub const SPP_SDP_RECORD_HEAD: &'static str = r#"<?xml version="1.0" encoding="UTF-8" ?>
<record>
    <attribute id="0x0001">
        <sequence>
            <uuid value="0x1101" />
        </sequence>
    </attribute>
    <attribute id="0x0004">
        <sequence>
            <sequence>
                <uuid value="0x0100" />
            </sequence>
            <sequence>
                <uuid value="0x0003" />
                <uint8 value="0x02" />
            </sequence>
        </sequence>
    </attribute>
    <attribute id="0x0009">
        <sequence>
            <sequence>
                <uuid value="0x1101" />
                <uint16 value="0x0102" />
            </sequence>
        </sequence>
    </attribute>
    <attribute id="0x0100">
        <text value=""#;

/// The SDP record of the serial-port service after its display name.
pub const SPP_SDP_RECORD_TAIL: &'static str = r#"" />
    </attribute>
    <attribute id="0x0101">
        <text value="Serial Port" />
    </attribute>
</record>"#;

/// The SDP record advertising wireless iAP2 under `uuid` on RFCOMM channel 1.
pub fn create_sdp_record_xml(uuid: &str) -> (xml: String)
    ensures
        xml@ == IAP2_SDP_RECORD_HEAD@ + uuid@ + IAP2_SDP_RECORD_TAIL@,
{
    let head = concat(IAP2_SDP_RECORD_HEAD, uuid);
    concat(head.as_str(), IAP2_SDP_RECORD_TAIL)
}

/// The SDP record advertising the serial-port service on RFCOMM channel 2
/// under the device's display name.
pub fn create_spp_record_xml(device_name: &str) -> (xml: String)
    ensures
        xml@ == SPP_SDP_RECORD_HEAD@ + device_name@ + SPP_SDP_RECORD_TAIL@,
{
    let head = concat(SPP_SDP_RECORD_HEAD, device_name);
    concat(head.as_str(), SPP_SDP_RECORD_TAIL)
}

/// The bytes a received line carries: its base64 text decoded, or nothing
/// when it is not standard base64 (such a line is skipped).
pub fn decode_spp_line(line: &[u8]) -> (r: Option<Vec<u8>>)
    ensures
        match r {
            Some(v) => base64_standard_decoded(line@) == Some(v@),
            None => base64_standard_decoded(line@) is None,
        },
{
    base64_decode(line)
}

/// The line that carries `data`: its base64 text and a newline.
pub fn spp_frame(data: &[u8]) -> (frame: Vec<u8>)
    ensures
        frame@ == base64_standard_encoded(data@).push(NEWLINE),
        forall|i: int| 0 <= i < frame@.len() - 1 ==> is_base64_symbol(#[trigger] frame@[i]),
        base64_standard_decoded(frame@.drop_last()) == Some(data@),
{
    let mut frame = base64_encode(data);
    frame.push(NEWLINE);
    assert(frame@.drop_last() =~= base64_standard_encoded(data@));
    frame
}

/// A line the daemon writes reads back whole: when the buffer holds no
/// partial line, taking a line after receiving a frame gives exactly the
/// frame's text, which decodes to the bytes it carries, and leaves the buffer
/// empty.
pub proof fn lemma_spp_frame_round_trip(data: Seq<u8>, frame: Seq<u8>)
    requires
        frame == base64_standard_encoded(data).push(NEWLINE),
        forall|i: int| 0 <= i < frame.len() - 1 ==> is_base64_symbol(#[trigger] frame[i]),
        base64_standard_decoded(frame.drop_last()) == Some(data),
    ensures
        first_line(frame) matches Some((l, rest)) && rest.len() == 0 && base64_standard_decoded(l) == Some(data),
{
    let k = frame.len() - 1;
    assert forall|j: int| 0 <= j < k implies !is_newline()(#[trigger] frame[j]) by {
        assert(is_base64_symbol(frame[j]));
    }
    lemma_first_index_at(frame, is_newline(), k);
    assert(frame.subrange(0, k) =~= frame.drop_last());
}

} // verus!
