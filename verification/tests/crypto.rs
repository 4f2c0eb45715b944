use aes::cipher::{BlockEncrypt, KeyInit};
use cmac::Mac;

use gateway_mesh::aes128::{get_encryption_key, get_signing_key, Aes128Key};
use gateway_mesh::packets::{
    Event, EventPayload, HeartbeatPayload, MeshPacket, Payload, PayloadType, RelayPath,
    UplinkMetadata, UplinkPayload, MHDR,
};

#[test]
fn test_signing_key_derivation() {
    // AES-128 of the all-zero block under the all-zero key (FIPS 197 /
    // NIST AESAVS known answer)
    let k = get_signing_key(Aes128Key::null());
    assert_eq!(
        [
            0x66, 0xe9, 0x4b, 0xd4, 0xef, 0x8a, 0x2c, 0x3b, 0x88, 0x4c, 0xfa, 0x59, 0xca, 0x34,
            0x2b, 0x2e
        ],
        k.to_bytes()
    );
}

#[test]
fn test_encryption_key_derivation() {
    let root = Aes128Key::from_bytes([7u8; 16]);
    let expected = {
        let cipher = aes::Aes128::new(&[7u8; 16].into());
        let mut block: aes::Block = [0u8; 16].into();
        block[0] = 1;
        cipher.encrypt_block(&mut block);
        let mut out = [0u8; 16];
        out.copy_from_slice(&block);
        out
    };
    assert_eq!(expected, get_encryption_key(root).to_bytes());
    // the two derived keys differ
    assert_ne!(
        get_signing_key(root).to_bytes(),
        get_encryption_key(root).to_bytes()
    );
}

#[test]
fn test_mic_matches_cmac() {
    let mut packet = MeshPacket {
        mhdr: MHDR {
            payload_type: PayloadType::Uplink,
            hop_count: 1,
        },
        payload: Payload::Uplink(UplinkPayload {
            metadata: UplinkMetadata {
                uplink_id: 123,
                dr: 0,
                rssi: -60,
                snr: 6,
                channel: 2,
            },
            relay_id: [1, 2, 3, 4],
            phy_payload: vec![9, 8, 7, 6],
        }),
        mic: None,
    };
    let key = get_signing_key(Aes128Key::null());
    packet.set_mic(key).unwrap();
    let bytes = packet.to_vec().unwrap();
    let body = &bytes[..bytes.len() - 4];
    let mut mac = <cmac::Cmac<aes::Aes128> as cmac::Mac>::new_from_slice(&key.to_bytes()).unwrap();
    mac.update(body);
    let tag = mac.finalize().into_bytes();
    assert_eq!(&tag[0..4], &bytes[bytes.len() - 4..]);
    assert!(packet.validate_mic(key).unwrap());
    // a flipped bit breaks the MIC
    let mut broken = bytes.clone();
    broken[1] ^= 0x01;
    let decoded = MeshPacket::from_slice(&broken).unwrap();
    assert!(!decoded.validate_mic(key).unwrap());
}

#[test]
fn test_event_encrypt_decrypt_identity() {
    let key = get_encryption_key(Aes128Key::from_bytes([3u8; 16]));
    let mut pl = EventPayload {
        timestamp: 1_000_000_000,
        relay_id: [2, 2, 2, 2],
        events: vec![
            Event::Heartbeat(HeartbeatPayload {
                relay_path: vec![RelayPath {
                    relay_id: [5, 6, 7, 8],
                    rssi: -120,
                    snr: -12,
                }],
            }),
            Event::Proprietary(130, vec![0x68, 0x65, 0x6c, 0x6c, 0x6f]),
        ],
    };
    let original = pl.clone();
    pl.encrypt(&key).unwrap();
    // the list is now a single opaque blob, different from the plaintext
    assert_eq!(1, pl.events.len());
    assert!(matches!(pl.events[0], Event::Encrypted(_)));
    if let Event::Encrypted(blob) = &pl.events[0] {
        assert_ne!(blob, &original.to_vec().unwrap()[8..].to_vec());
    }
    pl.decrypt(&key).unwrap();
    assert_eq!(original, pl);
}

#[test]
fn test_event_packet_wire_round_trip() {
    let enc_key = get_encryption_key(Aes128Key::null());
    let sig_key = get_signing_key(Aes128Key::null());
    let mut packet = MeshPacket {
        mhdr: MHDR {
            payload_type: PayloadType::Event,
            hop_count: 2,
        },
        payload: Payload::Event(EventPayload {
            timestamp: 1_000_000_000,
            relay_id: [1, 2, 3, 4],
            events: vec![Event::Heartbeat(HeartbeatPayload { relay_path: vec![] })],
        }),
        mic: None,
    };
    packet.encrypt(enc_key).unwrap();
    packet.set_mic(sig_key).unwrap();
    let bytes = packet.to_vec().unwrap();
    let mut decoded = MeshPacket::from_slice(&bytes).unwrap();
    assert_eq!(packet, decoded);
    assert!(decoded.validate_mic(sig_key).unwrap());
    decoded.decrypt(enc_key).unwrap();
    match &decoded.payload {
        Payload::Event(ev) => {
            assert_eq!(1_000_000_000, ev.timestamp);
            assert_eq!([1, 2, 3, 4], ev.relay_id);
            assert_eq!(
                vec![Event::Heartbeat(HeartbeatPayload { relay_path: vec![] })],
                ev.events
            );
        }
        _ => panic!("expected an event payload"),
    }
}
