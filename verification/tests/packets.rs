use gateway_mesh::error::Error;
use gateway_mesh::packets::{
    decode_freq, encode_freq, DownlinkMetadata, DownlinkPayload, HeartbeatPayload, MeshPacket,
    Packet, Payload, PayloadType, RelayPath, UplinkMetadata, UplinkPayload, MHDR,
};

#[test]
fn test_mhdr_from_byte() {
    struct Test {
        name: String,
        byte: u8,
        expected_mhdr: Option<MHDR>,
        expected_error: Option<String>,
    }

    let tests = vec![
        Test {
            name: "uplink + hop count 3".to_string(),
            byte: 0xe2,
            expected_mhdr: Some(MHDR {
                payload_type: PayloadType::Uplink,
                hop_count: 3,
            }),
            expected_error: None,
        },
        Test {
            name: "downlink + hop count 8".to_string(),
            byte: 0xef,
            expected_mhdr: Some(MHDR {
                payload_type: PayloadType::Downlink,
                hop_count: 8,
            }),
            expected_error: None,
        },
        Test {
            name: "invalid MType".to_string(),
            byte: 0x00,
            expected_mhdr: None,
            expected_error: Some("Invalid MType".into()),
        },
    ];

    for tst in &tests {
        println!("> {}", tst.name);
        let res = MHDR::from_byte(tst.byte);

        if let Some(mhdr) = &tst.expected_mhdr {
            assert_eq!(mhdr, &res.unwrap());
        } else if let Some(err) = &tst.expected_error {
            assert_eq!(err.as_str(), res.unwrap_err().message());
        }
    }
}

#[test]
fn test_mhdr_to_byte() {
    struct Test {
        name: String,
        mhdr: MHDR,
        expected_byte: Option<u8>,
        expected_error: Option<String>,
    }

    let tests = vec![
        Test {
            name: "uplink + hop count 3".to_string(),
            mhdr: MHDR {
                payload_type: PayloadType::Uplink,
                hop_count: 3,
            },
            expected_byte: Some(0xe2),
            expected_error: None,
        },
        Test {
            name: "downlink + hop count 8".to_string(),
            mhdr: MHDR {
                payload_type: PayloadType::Downlink,
                hop_count: 8,
            },
            expected_byte: Some(0xef),
            expected_error: None,
        },
        Test {
            name: "hop count exceeds max value".to_string(),
            mhdr: MHDR {
                payload_type: PayloadType::Uplink,
                hop_count: 9,
            },
            expected_byte: None,
            expected_error: Some("Max hop_count is 8".into()),
        },
        Test {
            name: "hop count is 0".to_string(),
            mhdr: MHDR {
                payload_type: PayloadType::Uplink,
                hop_count: 0,
            },
            expected_byte: None,
            expected_error: Some("Min hop_count is 1".into()),
        },
    ];

    for tst in &tests {
        println!("> {}", tst.name);
        let res = tst.mhdr.to_byte();

        if let Some(b) = &tst.expected_byte {
            assert_eq!(b, &res.unwrap());
        } else if let Some(err) = &tst.expected_error {
            assert_eq!(err.as_str(), res.unwrap_err().message());
        }
    }
}

#[test]
fn test_uplink_metadata_to_bytes() {
    struct Test {
        name: String,
        metadata: UplinkMetadata,
        expected_bytes: Option<[u8; 5]>,
        expected_error: Option<String>,
    }

    let tests = vec![
        Test {
            name: "Uplink ID exceeds max value".into(),
            metadata: UplinkMetadata {
                uplink_id: 4096,
                dr: 0,
                rssi: 0,
                snr: 0,
                channel: 0,
            },
            expected_bytes: None,
            expected_error: Some("Max uplink_id value is 4095".into()),
        },
        Test {
            name: "DR exceeds max value".into(),
            metadata: UplinkMetadata {
                uplink_id: 0,
                dr: 16,
                rssi: 0,
                snr: 0,
                channel: 0,
            },
            expected_bytes: None,
            expected_error: Some("Max dr value is 15".into()),
        },
        Test {
            name: "RSSI exceeds max value".into(),
            metadata: UplinkMetadata {
                uplink_id: 0,
                dr: 0,
                rssi: 1,
                snr: 0,
                channel: 0,
            },
            expected_bytes: None,
            expected_error: Some("Max rssi value is 0".into()),
        },
        Test {
            name: "RSSI exceeds min value".into(),
            metadata: UplinkMetadata {
                uplink_id: 0,
                dr: 0,
                rssi: -256,
                snr: 0,
                channel: 0,
            },
            expected_bytes: None,
            expected_error: Some("Min rssi value is -255".into()),
        },
        Test {
            name: "SNR exceeds max value".into(),
            metadata: UplinkMetadata {
                uplink_id: 0,
                dr: 0,
                rssi: 0,
                snr: 32,
                channel: 0,
            },
            expected_bytes: None,
            expected_error: Some("Max snr value is 31".into()),
        },
        Test {
            name: "SNR exceeds min value".into(),
            metadata: UplinkMetadata {
                uplink_id: 0,
                dr: 0,
                rssi: 0,
                snr: -33,
                channel: 0,
            },
            expected_bytes: None,
            expected_error: Some("Min snr value is -32".into()),
        },
        Test {
            name: "Uplink id: 1024, dr: 3, rssi: -120, snr: -12, channel: 64".into(),
            metadata: UplinkMetadata {
                uplink_id: 1024,
                dr: 3,
                rssi: -120,
                snr: -12,
                channel: 64,
            },
            expected_bytes: Some([0x40, 0x03, 0x78, 0x34, 0x40]),
            expected_error: None,
        },
    ];

    for tst in &tests {
        println!("> {}", tst.name);
        let res = tst.metadata.to_bytes();

        if let Some(b) = &tst.expected_bytes {
            assert_eq!(b, &res.unwrap());
        } else if let Some(err) = &tst.expected_error {
            assert_eq!(err.as_str(), res.unwrap_err().message());
        }
    }
}

#[test]
fn test_uplink_metadata_from_bytes() {
    struct Test {
        name: String,
        bytes: [u8; 5],
        expected_metadata: UplinkMetadata,
    }

    let tests = vec![Test {
        name: "Uplink id: 1024, dr: 3, rssi: -120, snr: -12, channel: 64".into(),
        bytes: [0x40, 0x03, 0x78, 0x34, 0x40],
        expected_metadata: UplinkMetadata {
            uplink_id: 1024,
            dr: 3,
            rssi: -120,
            snr: -12,
            channel: 64,
        },
    }];

    for tst in &tests {
        println!("> {}", tst.name);
        let res = UplinkMetadata::from_bytes(tst.bytes);
        assert_eq!(res, tst.expected_metadata);
    }
}

#[test]
fn test_uplink_payload_from_vec() {
    let b = vec![0x40, 0x03, 0x78, 0x34, 0x40, 0x01, 0x02, 0x03, 0x04, 0x05];
    let up_pl = UplinkPayload::from_slice(&b).unwrap();
    assert_eq!(
        UplinkPayload {
            metadata: UplinkMetadata {
                uplink_id: 1024,
                dr: 3,
                rssi: -120,
                snr: -12,
                channel: 64,
            },
            relay_id: [0x01, 0x02, 0x03, 0x04],
            phy_payload: vec![0x05],
        },
        up_pl,
    );
}

#[test]
fn test_uplink_payload_to_vec() {
    let up_pl = UplinkPayload {
        metadata: UplinkMetadata {
            uplink_id: 1024,
            dr: 3,
            rssi: -120,
            snr: -12,
            channel: 64,
        },
        relay_id: [0x01, 0x02, 0x03, 0x04],
        phy_payload: vec![0x05],
    };
    let b = up_pl.to_vec().unwrap();
    assert_eq!(
        vec![0x40, 0x03, 0x78, 0x34, 0x40, 0x01, 0x02, 0x03, 0x04, 0x05],
        b
    );
}

#[test]
fn test_downlink_metadata_from_bytes() {
    struct Test {
        name: String,
        bytes: [u8; 6],
        expected_metadata: DownlinkMetadata,
    }

    let tests = vec![Test {
        name: "Uplink id: 1024, dr: 3, frequency: 868100000, delay: 16".into(),
        bytes: [0x40, 0x03, 0x84, 0x76, 0x28, 0xff],
        expected_metadata: DownlinkMetadata {
            uplink_id: 1024,
            dr: 3,
            frequency: 868100000,
            tx_power: 15,
            delay: 16,
        },
    }];

    for tst in &tests {
        println!("> {}", tst.name);
        let res = DownlinkMetadata::from_bytes(tst.bytes);
        assert_eq!(res, tst.expected_metadata);
    }
}

#[test]
fn test_downlink_metadata_to_bytes() {
    struct Test {
        name: String,
        metadata: DownlinkMetadata,
        expected_bytes: Option<[u8; 6]>,
        expected_error: Option<String>,
    }

    let tests = vec![
        Test {
            name: "Uplink ID exceeds max value".into(),
            metadata: DownlinkMetadata {
                uplink_id: 4096,
                dr: 0,
                frequency: 868100000,
                tx_power: 0,
                delay: 1,
            },
            expected_bytes: None,
            expected_error: Some("Max uplink_id value is 4095".into()),
        },
        Test {
            name: "DR exceeds max value".into(),
            metadata: DownlinkMetadata {
                uplink_id: 0,
                dr: 16,
                frequency: 868100000,
                tx_power: 0,
                delay: 1,
            },
            expected_bytes: None,
            expected_error: Some("Max dr value is 15".into()),
        },
        Test {
            name: "Frequency not multiple of 100".into(),
            metadata: DownlinkMetadata {
                uplink_id: 0,
                dr: 0,
                frequency: 868100001,
                tx_power: 0,
                delay: 1,
            },
            expected_bytes: None,
            expected_error: Some("Frequency must be multiple of 100".into()),
        },
        Test {
            name: "TX Power exceeds max value".into(),
            metadata: DownlinkMetadata {
                uplink_id: 0,
                dr: 0,
                frequency: 868100000,
                tx_power: 16,
                delay: 1,
            },
            expected_bytes: None,
            expected_error: Some("Max tx_power value is 15".into()),
        },
        Test {
            name: "Delay exceeds max value".into(),
            metadata: DownlinkMetadata {
                uplink_id: 0,
                dr: 0,
                frequency: 868100000,
                tx_power: 0,
                delay: 17,
            },
            expected_bytes: None,
            expected_error: Some("Max delay value is 16".into()),
        },
        Test {
            name: "Uplink id: 1024, dr: 3, frequency: 868100000, tx_power: 15, delay: 16".into(),
            metadata: DownlinkMetadata {
                uplink_id: 1024,
                dr: 3,
                frequency: 868100000,
                tx_power: 15,
                delay: 16,
            },
            expected_bytes: Some([0x40, 0x03, 0x84, 0x76, 0x28, 0xff]),
            expected_error: None,
        },
    ];

    for tst in &tests {
        println!("> {}", tst.name);
        let res = tst.metadata.to_bytes();

        if let Some(b) = &tst.expected_bytes {
            assert_eq!(b, &res.unwrap());
        } else if let Some(err) = &tst.expected_error {
            assert_eq!(err.as_str(), res.unwrap_err().message());
        }
    }
}

#[test]
fn test_downlink_payload_from_slice() {
    let b = vec![
        0x40, 0x03, 0x84, 0x76, 0x28, 0xff, 0x01, 0x02, 0x03, 0x04, 0x05,
    ];
    let dn_pl = DownlinkPayload::from_slice(&b).unwrap();
    assert_eq!(
        DownlinkPayload {
            metadata: DownlinkMetadata {
                uplink_id: 1024,
                dr: 3,
                frequency: 868100000,
                tx_power: 15,
                delay: 16,
            },
            relay_id: [0x01, 0x02, 0x03, 0x04],
            phy_payload: vec![0x05],
        },
        dn_pl,
    );
}

#[test]
fn test_downlink_payload_to_vec() {
    let dn_pl = DownlinkPayload {
        metadata: DownlinkMetadata {
            uplink_id: 1024,
            dr: 3,
            frequency: 868100000,
            tx_power: 15,
            delay: 16,
        },
        relay_id: [0x01, 0x02, 0x03, 0x04],
        phy_payload: vec![0x05],
    };
    let b = dn_pl.to_vec().unwrap();
    assert_eq!(
        vec![0x40, 0x03, 0x84, 0x76, 0x28, 0xff, 0x01, 0x02, 0x03, 0x04, 0x05,],
        b
    );
}

#[test]
fn test_mesh_packet_from_slice() {
    struct Test {
        name: String,
        bytes: Vec<u8>,
        expected_mesh_packet: MeshPacket,
    }

    let tests = vec![
        Test {
            name: "uplink".into(),
            bytes: vec![
                0xe2, 0x40, 0x03, 0x78, 0x34, 0x40, 0x01, 0x02, 0x03, 0x04, 0x05, 0x01, 0x02,
                0x03, 0x04,
            ],
            expected_mesh_packet: MeshPacket {
                mhdr: MHDR {
                    payload_type: PayloadType::Uplink,
                    hop_count: 3,
                },
                payload: Payload::Uplink(UplinkPayload {
                    metadata: UplinkMetadata {
                        uplink_id: 1024,
                        dr: 3,
                        rssi: -120,
                        snr: -12,
                        channel: 64,
                    },
                    relay_id: [0x01, 0x02, 0x03, 0x04],
                    phy_payload: vec![0x05],
                }),
                mic: Some([0x01, 0x02, 0x03, 0x04]),
            },
        },
        Test {
            name: "downlink".into(),
            bytes: vec![
                0xef, 0x40, 0x03, 0x84, 0x76, 0x28, 0xff, 0x01, 0x02, 0x03, 0x04, 0x05, 0x01,
                0x02, 0x03, 0x04,
            ],
            expected_mesh_packet: MeshPacket {
                mhdr: MHDR {
                    payload_type: PayloadType::Downlink,
                    hop_count: 8,
                },
                payload: Payload::Downlink(DownlinkPayload {
                    metadata: DownlinkMetadata {
                        uplink_id: 1024,
                        dr: 3,
                        frequency: 868100000,
                        tx_power: 15,
                        delay: 16,
                    },
                    relay_id: [0x01, 0x02, 0x03, 0x04],
                    phy_payload: vec![0x05],
                }),
                mic: Some([0x01, 0x02, 0x03, 0x04]),
            },
        },
    ];

    for tst in &tests {
        println!("> {}", tst.name);
        let pl = MeshPacket::from_slice(&tst.bytes).unwrap();
        assert_eq!(tst.expected_mesh_packet, pl);
    }
}

#[test]
fn test_mesh_packet_to_vec() {
    struct Test {
        name: String,
        mesh_packet: MeshPacket,
        expected_bytes: Vec<u8>,
    }

    let tests = vec![
        Test {
            name: "uplink".into(),
            expected_bytes: vec![
                0xe2, 0x40, 0x03, 0x78, 0x34, 0x40, 0x01, 0x02, 0x03, 0x04, 0x05, 0x01, 0x02,
                0x03, 0x04,
            ],
            mesh_packet: MeshPacket {
                mhdr: MHDR {
                    payload_type: PayloadType::Uplink,
                    hop_count: 3,
                },
                payload: Payload::Uplink(UplinkPayload {
                    metadata: UplinkMetadata {
                        uplink_id: 1024,
                        dr: 3,
                        rssi: -120,
                        snr: -12,
                        channel: 64,
                    },
                    relay_id: [0x01, 0x02, 0x03, 0x04],
                    phy_payload: vec![0x05],
                }),
                mic: Some([0x01, 0x02, 0x03, 0x04]),
            },
        },
        Test {
            name: "downlink".into(),
            expected_bytes: vec![
                0xef, 0x40, 0x03, 0x84, 0x76, 0x28, 0xff, 0x01, 0x02, 0x03, 0x04, 0x05, 0x01,
                0x02, 0x03, 0x04,
            ],
            mesh_packet: MeshPacket {
                mhdr: MHDR {
                    payload_type: PayloadType::Downlink,
                    hop_count: 8,
                },
                payload: Payload::Downlink(DownlinkPayload {
                    metadata: DownlinkMetadata {
                        uplink_id: 1024,
                        dr: 3,
                        frequency: 868100000,
                        tx_power: 15,
                        delay: 16,
                    },
                    relay_id: [0x01, 0x02, 0x03, 0x04],
                    phy_payload: vec![0x05],
                }),
                mic: Some([0x01, 0x02, 0x03, 0x04]),
            },
        },
    ];

    for tst in &tests {
        println!("> {}", tst.name);
        let b = tst.mesh_packet.to_vec().unwrap();
        assert_eq!(tst.expected_bytes, b);
    }
}

#[test]
fn test_packet_from_slice() {
    struct Test {
        name: String,
        bytes: Vec<u8>,
        expected_packet: Packet,
    }

    let tests = vec![
        Test {
            name: "mesh packet".into(),
            bytes: vec![
                0xe2, 0x40, 0x03, 0x78, 0x34, 0x40, 0x01, 0x02, 0x03, 0x04, 0x05, 0x01, 0x02,
                0x03, 0x04,
            ],
            expected_packet: Packet::Mesh(MeshPacket {
                mhdr: MHDR {
                    payload_type: PayloadType::Uplink,
                    hop_count: 3,
                },
                payload: Payload::Uplink(UplinkPayload {
                    metadata: UplinkMetadata {
                        uplink_id: 1024,
                        dr: 3,
                        rssi: -120,
                        snr: -12,
                        channel: 64,
                    },
                    relay_id: [0x01, 0x02, 0x03, 0x04],
                    phy_payload: vec![0x05],
                }),
                mic: Some([0x01, 0x02, 0x03, 0x04]),
            }),
        },
        Test {
            name: "lora packet".into(),
            bytes: vec![0x01, 0x02, 0x03],
            expected_packet: Packet::Lora(vec![0x01, 0x02, 0x03]),
        },
    ];

    for tst in &tests {
        println!("> {}", tst.name);
        let pkt = Packet::from_slice(&tst.bytes).unwrap();
        assert_eq!(tst.expected_packet, pkt);
    }
}

#[test]
fn test_packet_to_vec() {
    struct Test {
        name: String,
        expected_bytes: Vec<u8>,
        packet: Packet,
    }

    let tests = vec![
        Test {
            name: "mesh packet".into(),
            expected_bytes: vec![
                0xe2, 0x40, 0x03, 0x78, 0x34, 0x40, 0x01, 0x02, 0x03, 0x04, 0x05, 0x01, 0x02,
                0x03, 0x04,
            ],
            packet: Packet::Mesh(MeshPacket {
                mhdr: MHDR {
                    payload_type: PayloadType::Uplink,
                    hop_count: 3,
                },
                payload: Payload::Uplink(UplinkPayload {
                    metadata: UplinkMetadata {
                        uplink_id: 1024,
                        dr: 3,
                        rssi: -120,
                        snr: -12,
                        channel: 64,
                    },
                    relay_id: [0x01, 0x02, 0x03, 0x04],
                    phy_payload: vec![0x05],
                }),
                mic: Some([0x01, 0x02, 0x03, 0x04]),
            }),
        },
        Test {
            name: "lora packet".into(),
            expected_bytes: vec![0x01, 0x02, 0x03],
            packet: Packet::Lora(vec![0x01, 0x02, 0x03]),
        },
    ];

    for tst in &tests {
        println!("> {}", tst.name);
        let b = tst.packet.to_vec().unwrap();
        assert_eq!(tst.expected_bytes, b);
    }
}

#[test]
fn test_freq_encoding_errors() {
    assert_eq!(
        "Max frequency value is 2^24 - 1",
        encode_freq(1_677_721_700).unwrap_err().message()
    );
    assert_eq!(
        "Frequency must be multiple of 100",
        encode_freq(868_100_050).unwrap_err().message()
    );
    assert_eq!(
        "3 bytes expected for frequency",
        decode_freq(&[1, 2]).unwrap_err().message()
    );
    // the 2.4 GHz band steps by 200 Hz: a frequency off that grid is
    // refused, not rounded down
    assert_eq!(
        "Frequency must be multiple of 100",
        encode_freq(2_400_000_001).unwrap_err().message()
    );
    assert_eq!(
        "Frequency must be multiple of 100",
        encode_freq(2_425_000_100).unwrap_err().message()
    );
    let b = encode_freq(2_425_000_000).unwrap();
    assert_eq!(2_425_000_000, decode_freq(&b).unwrap());
    let b = encode_freq(868_100_000).unwrap();
    assert_eq!(868_100_000, decode_freq(&b).unwrap());
}

#[test]
fn test_relay_path_codec() {
    let p = RelayPath {
        relay_id: [5, 6, 7, 8],
        rssi: -120,
        snr: -12,
    };
    let b = p.to_bytes().unwrap();
    assert_eq!([5, 6, 7, 8, 120, 52], b);
    assert_eq!(p, RelayPath::from_bytes(b));
    assert_eq!(
        "Max rssi value is 0",
        RelayPath {
            relay_id: [0; 4],
            rssi: 1,
            snr: 0
        }
        .to_bytes()
        .unwrap_err()
        .message()
    );
}

#[test]
fn test_heartbeat_relay_path_codec() {
    let hb = HeartbeatPayload {
        relay_path: vec![
            RelayPath {
                relay_id: [5, 6, 7, 8],
                rssi: -120,
                snr: -12,
            },
            RelayPath {
                relay_id: [9, 10, 11, 12],
                rssi: -120,
                snr: -12,
            },
        ],
    };
    let b = hb.to_vec().unwrap();
    assert_eq!(vec![5, 6, 7, 8, 120, 52, 9, 10, 11, 12, 120, 52], b);
    assert_eq!(hb, HeartbeatPayload::from_slice(&b).unwrap());
    // a value that is not whole six-byte entries is refused
    assert_eq!(
        "Invalid amount of Relay path bytes",
        HeartbeatPayload::from_slice(&[1, 2, 3]).unwrap_err().message()
    );
}
