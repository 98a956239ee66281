use nocturned::spp::{create_sdp_record_xml, create_spp_record_xml, decode_spp_line, spp_frame, SppLineBuffer};

#[test]
fn lines_are_split_at_newlines_across_reads() {
    let mut buffer = SppLineBuffer::new();
    buffer.push(b"QUJD");
    assert_eq!(buffer.take_line(), None);
    buffer.push(b"\nREVG\nR0");
    assert_eq!(buffer.take_line(), Some(b"QUJD".to_vec()));
    assert_eq!(buffer.take_line(), Some(b"REVG".to_vec()));
    assert_eq!(buffer.take_line(), None);
    buffer.push(b"hJ\n\n");
    assert_eq!(buffer.take_line(), Some(b"R0hJ".to_vec()));
    assert_eq!(buffer.take_line(), Some(Vec::new()));
    assert_eq!(buffer.take_line(), None);
}

#[test]
fn lines_decode_as_base64_or_are_skipped() {
    assert_eq!(decode_spp_line(b"QUJD"), Some(b"ABC".to_vec()));
    assert_eq!(decode_spp_line(b"not base64!"), None);
}

#[test]
fn frames_read_back_as_what_they_carry() {
    let data = [0u8, 1, 2, 0x0a, 0xff, 0x80];
    let frame = spp_frame(&data);
    assert_eq!(*frame.last().unwrap(), b'\n');
    assert_eq!(frame.iter().filter(|b| **b == b'\n').count(), 1);
    let mut buffer = SppLineBuffer::new();
    buffer.push(&frame);
    let line = buffer.take_line().unwrap();
    assert_eq!(decode_spp_line(&line), Some(data.to_vec()));
    assert_eq!(buffer.take_line(), None);
    assert_eq!(spp_frame(b"ABC"), b"QUJD\n".to_vec());
}

#[test]
fn sdp_records_embed_uuid_and_name() {
    let uuid = "00000000-deca-fade-deca-deafdecacafe";
    let expected = format!(
        r#"<?xml version="1.0" encoding="UTF-8" ?>
<record>
    <attribute id="0x0001"><sequence><uuid value="{uuid}" /></sequence></attribute>
    <attribute id="0x0004"><sequence>
        <sequence><uuid value="0x0100" /></sequence>
        <sequence><uuid value="0x0003" /><uint8 value="0x{channel:02x}" /></sequence>
    </sequence></attribute>
    <attribute id="0x0005"><sequence><uuid value="0x1002" /></sequence></attribute>
    <attribute id="0x0006"><sequence>
        <uint16 value="0x656e" />
        <uint16 value="0x006a" />
        <uint16 value="0x0100" />
    </sequence></attribute>
    <attribute id="0x0008"><uint8 value="0xff" /></attribute>
    <attribute id="0x0009"><sequence>
        <sequence><uuid value="0x1101" /><uint16 value="0x0100" /></sequence>
    </sequence></attribute>
    <attribute id="0x0100"><text value="Wireless iAP" /></attribute>
</record>
"#,
        uuid = uuid,
        channel = 1u8,
    );
    assert_eq!(create_sdp_record_xml(uuid), expected);

    let spp = create_spp_record_xml("Nocturne");
    assert!(spp.contains(r#"<text value="Nocturne" />"#));
    assert!(spp.contains(r#"<uint8 value="0x02" />"#));
    assert!(spp.ends_with("</record>"));
}
