use buildings_core::glb::{
    assemble, assemble_copied, frame_json_only_glb, pack_glb_bin, pad_to, round_up, BIN_TYPE, BUFFER_REAL,
    BUFFER_VIRTUAL, GAP_JSON_LEN, GAP_MIN_PAYLOAD, JSON_TYPE, PREFIX_GAP,
};
use buildings_core::mesh::FeatureProps;

fn u32_at(b: &[u8], at: usize) -> usize {
    u32::from_le_bytes([b[at], b[at + 1], b[at + 2], b[at + 3]]) as usize
}

/// Split a glb into its JSON value and BIN payload, checking the framing.
fn chunks(glb: &[u8]) -> (serde_json::Value, &[u8]) {
    assert_eq!(&glb[0..4], b"glTF");
    assert_eq!(u32_at(glb, 4), 2);
    assert_eq!(u32_at(glb, 8), glb.len(), "header total length");
    let json_len = u32_at(glb, 12);
    assert_eq!(u32_at(glb, 16), JSON_TYPE as usize);
    assert!(json_len % 4 == 0, "JSON chunk must be 4-aligned");
    let json: serde_json::Value = serde_json::from_slice(&glb[20..20 + json_len]).expect("JSON chunk");
    let bin_off = 20 + json_len;
    let bin_len = u32_at(glb, bin_off);
    assert_eq!(u32_at(glb, bin_off + 4), BIN_TYPE as usize);
    assert_eq!(bin_off + 8 + bin_len, glb.len(), "BIN chunk fills the file");
    (json, &glb[bin_off + 8..])
}

#[test]
fn assemble_paths_agree() {
    let json = br#"{"asset":{"version":"2.0"}}"#.to_vec();
    for payload in [16usize, GAP_MIN_PAYLOAD + 4] {
        let mut bin = vec![0u8; PREFIX_GAP];
        bin.extend((0..payload).map(|i| i as u8));
        let glb = assemble(bin, json.clone());
        let (parsed, chunk) = chunks(&glb);
        assert_eq!(parsed["asset"]["version"], serde_json::Value::String("2.0".to_string()));
        assert_eq!(chunk.len(), payload);
        assert!(chunk.iter().enumerate().all(|(i, b)| *b == i as u8));
    }
}

#[test]
fn small_payloads_are_copied_and_large_ones_framed_in_place() {
    let json = br#"{"a":1}"#.to_vec();
    let small: Vec<u8> = (0..64).map(|i| (i * 7) as u8).collect();
    let mut bin = vec![0u8; PREFIX_GAP];
    bin.extend_from_slice(&small);
    assert_eq!(assemble(bin, json.clone()), assemble_copied(&small, json.clone()));

    let large: Vec<u8> = (0..GAP_MIN_PAYLOAD + 8).map(|i| (i * 7) as u8).collect();
    let mut bin = vec![0u8; PREFIX_GAP];
    bin.extend_from_slice(&large);
    let glb = assemble(bin, json);
    // The JSON chunk fills the reserved gap exactly.
    assert_eq!(u32_at(&glb, 12), GAP_JSON_LEN);
    assert_eq!(glb.len(), PREFIX_GAP + large.len());
    let (parsed, chunk) = chunks(&glb);
    assert_eq!(parsed["a"], serde_json::Value::from(1));
    assert_eq!(chunk, &large[..]);
}

#[test]
fn json_chunk_is_space_padded() {
    let glb = assemble_copied(&[1, 2, 3, 4], b"{}".to_vec());
    assert_eq!(&glb[20..24], b"{}  ");
    assert_eq!(glb.len(), 20 + 4 + 8 + 4);
}

#[test]
fn json_only_glb_has_no_bin_chunk() {
    let glb = frame_json_only_glb(b"{\"x\":0}".to_vec());
    assert_eq!(&glb[0..4], b"glTF");
    assert_eq!(u32_at(&glb, 8), glb.len());
    assert_eq!(u32_at(&glb, 12), 8);
    assert_eq!(&glb[20..28], b"{\"x\":0} ");
    assert_eq!(glb.len(), 28);
}

#[test]
fn pad_to_and_round_up_agree() {
    let mut buf = vec![9u8; 5];
    pad_to(&mut buf, 4);
    assert_eq!(buf, vec![9, 9, 9, 9, 9, 0, 0, 0]);
    assert_eq!(round_up(5, 4), 8);
    assert_eq!(round_up(8, 4), 8);
    assert_eq!(round_up(0, 4), 0);
}

fn props(id: Option<u64>, name: Option<&str>, method: &'static str) -> FeatureProps {
    FeatureProps {
        feature_id: id,
        gers_id: Some("08b2f".to_string()),
        name: name.map(|n| n.to_string()),
        subtype: None,
        class: Some("house".to_string()),
        height_m_bits: 9.5f32.to_bits(),
        source_height_m_bits: None,
        height_method: method,
        min_height_m_bits: 0,
        roof_height_m_bits: 0,
        roof_shape: None,
        num_floors: 3,
        ground_elev_m_bits: 2.25f32.to_bits(),
        footprint_m2_bits: 80.0f32.to_bits(),
    }
}

#[test]
fn packed_views_lie_inside_the_bin_payload() {
    // Three u16 ids and odd-length strings force padding between views.
    let v = |x: f32, y: f32, z: f32| [x.to_bits(), y.to_bits(), z.to_bits()];
    let pos = vec![v(0.0, 0.0, 0.0), v(1.0, 0.0, 0.0), v(0.0, 1.0, 0.0), v(1.0, 1.0, 3.5)];
    let nrm = vec![v(0.0, 0.0, 1.0); 4];
    let indices = vec![0u32, 1, 2, 2, 1, 3];
    let fids = vec![0u16, 0, 1];
    let feats = vec![props(Some(42), Some("Dom"), "explicit"), props(None, None, "footprint")];
    let expected_pos = meshopt::encode_vertex_buffer(&pos).unwrap();
    let out = pack_glb_bin(&pos, &nrm, indices, fids, &feats);
    let m0 = out.views[0].meshopt.as_ref().unwrap();
    let at = PREFIX_GAP + m0.byte_offset;
    assert_eq!(&out.bin[at..at + m0.byte_length], &expected_pos[..]);
    let payload_len = out.bin.len() - PREFIX_GAP;
    assert_eq!(payload_len % 4, 0);
    assert_eq!(out.views.len(), 23);
    for (k, v) in out.views.iter().enumerate() {
        let (offset, length) = match &v.meshopt {
            Some(m) => {
                assert_eq!(v.buffer, BUFFER_VIRTUAL, "view {k}");
                (m.byte_offset, m.byte_length)
            }
            None => {
                assert_eq!(v.buffer, BUFFER_REAL, "view {k}");
                (v.byte_offset, v.byte_length)
            }
        };
        assert!(offset + length <= payload_len, "view {k} ends past the payload");
        assert_eq!(offset % 4, 0, "view {k} is not 4-aligned");
    }
    let stored = |k: usize| match &out.views[k].meshopt {
        Some(m) => (m.byte_offset, m.byte_length),
        None => (out.views[k].byte_offset, out.views[k].byte_length),
    };
    let mut end = 0usize;
    for k in 0..out.views.len() {
        let align = if k == 4 { 8 } else { 4 };
        let (offset, length) = stored(k);
        assert_eq!(offset, round_up(end, align), "view {k} does not follow the previous one");
        end = offset + length;
    }
    assert_eq!(payload_len, round_up(end, 4));
    assert_eq!(out.views[4].byte_offset % 8, 0);
    assert_eq!(out.views[4].byte_length, 16);
    let at = PREFIX_GAP + out.views[4].byte_offset;
    assert_eq!(&out.bin[at..at + 8], &42u64.to_le_bytes());
    assert_eq!(out.virtual_total, 24 * 4 + 4 * 6);
}
