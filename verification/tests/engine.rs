use gateway_mesh::aes128::{get_signing_key, Aes128Key};
use gateway_mesh::config::{
    Backend, Concentratord, Configuration, DataRate, Logging, Mappings, Mesh, Modulation,
    ProxyApi,
};
use gateway_mesh::mesh::{
    handle_mesh, handle_uplink, is_relayed_context, relay_downlink_item, relay_mesh_packet,
    send_events, send_mesh_command, DownlinkItem, DownlinkTiming, MeshAction, MeshState, RxInfo,
    TxInfo, UplinkFrame,
};
use gateway_mesh::packets::{
    Command, DownlinkMetadata, DownlinkPayload, Event, MeshPacket, Payload, PayloadType,
    UplinkMetadata, UplinkPayload, MHDR,
};

fn sf12() -> DataRate {
    DataRate {
        modulation: Modulation::LORA,
        spreading_factor: 12,
        bandwidth: 125000,
        code_rate: None,
        bitrate: 0,
    }
}

fn test_conf(border_gateway: bool) -> Configuration {
    Configuration {
        logging: Logging {
            level: "info".to_string(),
            log_to_syslog: false,
        },
        mesh: Mesh {
            root_key: Aes128Key::null(),
            signing_key: Aes128Key::null(),
            frequencies: vec![868100000],
            data_rate: sf12(),
            tx_power: 16,
            proxy_api: ProxyApi {
                event_bind: String::new(),
                command_bind: String::new(),
            },
            border_gateway,
            border_gateway_ignore_direct_uplinks: false,
            max_hop_count: 8,
        },
        backend: Backend {
            concentratord: Concentratord {
                event_url: String::new(),
                command_url: String::new(),
            },
            mesh_concentratord: Concentratord {
                event_url: String::new(),
                command_url: String::new(),
            },
        },
        mappings: Mappings {
            channels: vec![868100000, 868300000, 868500000],
            tx_power: vec![27, 14],
            data_rates: vec![sf12()],
        },
    }
}

fn mesh_frame(phy: Vec<u8>, rssi: i16, snr: i8) -> UplinkFrame {
    UplinkFrame {
        phy_payload: phy,
        rx_info: RxInfo {
            rssi,
            snr,
            context: vec![],
        },
        tx_info: TxInfo {
            frequency: 868100000,
            data_rate: sf12(),
        },
    }
}

fn signed_uplink_packet() -> MeshPacket {
    let mut packet = MeshPacket {
        mhdr: MHDR {
            payload_type: PayloadType::Uplink,
            hop_count: 1,
        },
        payload: Payload::Uplink(UplinkPayload {
            metadata: UplinkMetadata {
                uplink_id: 123,
                dr: 0,
                rssi: -60,
                snr: 6,
                channel: 2,
            },
            relay_id: [1, 2, 3, 4],
            phy_payload: vec![9, 8, 7, 6],
        }),
        mic: None,
    };
    packet
        .set_mic(get_signing_key(Aes128Key::null()))
        .unwrap();
    packet
}

#[test]
fn test_border_unwrap_uplink() {
    let conf = test_conf(true);
    let mut state = MeshState::new();
    let bytes = signed_uplink_packet().to_vec().unwrap();
    let action = handle_mesh(&mut state, &conf, &[9, 9, 9, 9], &mesh_frame(bytes, -40, 3)).unwrap();
    match action {
        MeshAction::ProxyRelayedUplink(out) => {
            assert_eq!(vec![9, 8, 7, 6], out.phy_payload);
            assert_eq!(868500000, out.frequency);
            assert_eq!(-60, out.rssi);
            assert_eq!(6, out.snr);
            assert_eq!(1, out.hop_count);
            assert_eq!([1, 2, 3, 4], out.relay_id);
            assert_eq!(123, out.uplink_id);
            assert_eq!(vec![1, 2, 3, 1, 2, 3, 4, 0x00, 0x7b], out.context);
            assert_eq!(sf12(), out.data_rate);
        }
        _ => panic!("expected an unwrapped relayed uplink"),
    }
}

#[test]
fn test_border_drops_invalid_mic() {
    let conf = test_conf(true);
    let mut state = MeshState::new();
    let mut bytes = signed_uplink_packet().to_vec().unwrap();
    let n = bytes.len();
    bytes[n - 1] ^= 0xff;
    let action = handle_mesh(&mut state, &conf, &[9, 9, 9, 9], &mesh_frame(bytes, -40, 3)).unwrap();
    assert!(matches!(action, MeshAction::Drop));
}

#[test]
fn test_duplicate_packet_dropped() {
    let conf = test_conf(true);
    let mut state = MeshState::new();
    let bytes = signed_uplink_packet().to_vec().unwrap();
    let first = handle_mesh(
        &mut state,
        &conf,
        &[9, 9, 9, 9],
        &mesh_frame(bytes.clone(), -40, 3),
    )
    .unwrap();
    assert!(matches!(first, MeshAction::ProxyRelayedUplink(_)));
    let second =
        handle_mesh(&mut state, &conf, &[9, 9, 9, 9], &mesh_frame(bytes, -40, 3)).unwrap();
    assert!(matches!(second, MeshAction::Drop));
}

#[test]
fn test_relay_wrap_and_downlink_unwrap() {
    let conf = test_conf(false);
    let mut state = MeshState::new();
    let my_relay: [u8; 4] = [2, 2, 2, 2];

    // a LoRaWAN uplink arrives on the device radio of the relay
    let uplink = UplinkFrame {
        phy_payload: vec![1, 2, 3, 4, 5, 6, 7, 8],
        rx_info: RxInfo {
            rssi: -60,
            snr: 12,
            context: vec![0xaa, 0xbb],
        },
        tx_info: TxInfo {
            frequency: 868300000,
            data_rate: sf12(),
        },
    };
    let action = handle_uplink(&mut state, &conf, &my_relay, &uplink).unwrap();
    let wrapped = match action {
        MeshAction::Transmit(t) => {
            assert_eq!(868100000, t.frequency);
            assert_eq!(16, t.power);
            assert_eq!(sf12(), t.data_rate);
            t.phy_payload
        }
        _ => panic!("expected a mesh transmission"),
    };
    let packet = MeshPacket::from_slice(&wrapped).unwrap();
    assert!(packet
        .validate_mic(get_signing_key(Aes128Key::null()))
        .unwrap());
    assert_eq!(PayloadType::Uplink, packet.mhdr.payload_type);
    assert_eq!(1, packet.mhdr.hop_count);
    match &packet.payload {
        Payload::Uplink(u) => {
            assert_eq!(1, u.metadata.uplink_id);
            assert_eq!(0, u.metadata.dr);
            assert_eq!(1, u.metadata.channel);
            assert_eq!(-60, u.metadata.rssi);
            assert_eq!(12, u.metadata.snr);
            assert_eq!(my_relay, u.relay_id);
            assert_eq!(vec![1, 2, 3, 4, 5, 6, 7, 8], u.phy_payload);
        }
        _ => panic!("expected an uplink payload"),
    }

    // the matching relayed downlink comes back for uplink_id 1
    let mut down = MeshPacket {
        mhdr: MHDR {
            payload_type: PayloadType::Downlink,
            hop_count: 1,
        },
        payload: Payload::Downlink(DownlinkPayload {
            metadata: DownlinkMetadata {
                uplink_id: 1,
                dr: 0,
                frequency: 867100000,
                tx_power: 1,
                delay: 5,
            },
            relay_id: my_relay,
            phy_payload: vec![9, 8, 7, 6, 5],
        }),
        mic: None,
    };
    down.set_mic(get_signing_key(Aes128Key::null())).unwrap();
    let bytes = down.to_vec().unwrap();
    let action = handle_mesh(&mut state, &conf, &my_relay, &mesh_frame(bytes, -80, 1)).unwrap();
    match action {
        MeshAction::ScheduleDownlink(dl) => {
            assert_eq!(vec![9, 8, 7, 6, 5], dl.phy_payload);
            assert_eq!(867100000, dl.frequency);
            assert_eq!(14, dl.power);
            assert_eq!(5, dl.delay);
            assert_eq!(sf12(), dl.data_rate);
            assert_eq!(vec![0xaa, 0xbb], dl.context);
        }
        _ => panic!("expected a device-radio downlink"),
    }
}

#[test]
fn test_relay_drops_own_uplink() {
    let conf = test_conf(false);
    let mut state = MeshState::new();
    // relay_id 01020304 matches the sender in the packet
    let bytes = signed_uplink_packet().to_vec().unwrap();
    let action = handle_mesh(&mut state, &conf, &[1, 2, 3, 4], &mesh_frame(bytes, -40, 3)).unwrap();
    assert!(matches!(action, MeshAction::Drop));
}

#[test]
fn test_hop_limit() {
    let mut conf = test_conf(false);
    conf.mesh.max_hop_count = 3;
    let mut state = MeshState::new();
    let mut packet = signed_uplink_packet();
    packet.mhdr.hop_count = 3;
    packet
        .set_mic(get_signing_key(Aes128Key::null()))
        .unwrap();
    let bytes = packet.to_vec().unwrap();
    // addressed to another relay: after the increment hop 4 > 3
    let res = handle_mesh(&mut state, &conf, &[9, 9, 9, 9], &mesh_frame(bytes, -40, 3));
    assert_eq!("Max hop count exceeded", res.unwrap_err().message());
}

#[test]
fn test_relay_rerelay_increments_hop() {
    let conf = test_conf(false);
    let mut state = MeshState::new();
    let bytes = signed_uplink_packet().to_vec().unwrap();
    // addressed to another relay and inside the hop budget: re-transmit
    let action = handle_mesh(&mut state, &conf, &[9, 9, 9, 9], &mesh_frame(bytes, -40, 3)).unwrap();
    match action {
        MeshAction::Transmit(t) => {
            let relayed = MeshPacket::from_slice(&t.phy_payload).unwrap();
            assert_eq!(2, relayed.mhdr.hop_count);
            assert!(relayed
                .validate_mic(get_signing_key(Aes128Key::null()))
                .unwrap());
        }
        _ => panic!("expected a mesh transmission"),
    }
}

#[test]
fn test_command_execute_and_reply() {
    let conf_border = test_conf(true);
    let conf_relay = test_conf(false);
    let mut border = MeshState::new();
    let mut relay = MeshState::new();
    let target: [u8; 4] = [2, 2, 2, 2];

    // the border gateway wraps the command for relay 02020202
    let t = send_mesh_command(
        &mut border,
        &conf_border,
        &target,
        1000,
        vec![Command::Proprietary(
            130,
            vec![0x68, 0x65, 0x6c, 0x6c, 0x6f],
        )],
    )
    .unwrap();

    // the relay decrypts and accepts it
    let action = handle_mesh(
        &mut relay,
        &conf_relay,
        &target,
        &mesh_frame(t.phy_payload.clone(), -70, 2),
    )
    .unwrap();
    match action {
        MeshAction::ExecuteCommands(cmds) => {
            assert_eq!(
                vec![Command::Proprietary(
                    130,
                    vec![0x68, 0x65, 0x6c, 0x6c, 0x6f]
                )],
                cmds
            );
        }
        _ => panic!("expected commands to execute"),
    }

    // the reply carries the command output as a proprietary event
    let reply = send_events(
        &mut relay,
        &conf_relay,
        &target,
        1000,
        vec![Event::Proprietary(130, vec![0x35, 0x0a])],
    )
    .unwrap();
    let action = handle_mesh(
        &mut border,
        &conf_border,
        &[9, 9, 9, 9],
        &mesh_frame(reply.phy_payload, -70, 2),
    )
    .unwrap();
    match action {
        MeshAction::ProxyMeshEvent(m) => {
            assert_eq!(target, m.relay_id);
            assert_eq!(1000, m.timestamp);
            assert_eq!(vec![Event::Proprietary(130, vec![0x35, 0x0a])], m.events);
        }
        _ => panic!("expected an unwrapped mesh event"),
    }

    // a command packet whose timestamp did not move forward is refused
    let stale = relay_mesh_packet(
        &mut relay,
        &conf_relay,
        &target,
        &RxInfo {
            rssi: -70,
            snr: 2,
            context: vec![],
        },
        MeshPacket {
            mhdr: MHDR {
                payload_type: PayloadType::Command,
                hop_count: 1,
            },
            payload: Payload::Command(gateway_mesh::packets::CommandPayload {
                timestamp: 1000,
                relay_id: target,
                commands: vec![Command::Proprietary(130, vec![0x68])],
            }),
            mic: None,
        },
    );
    assert_eq!(
        "Command timestamp did not increment compared to previous command payload",
        stale.unwrap_err().message()
    );

    // replaying the very same packet is caught by the duplicate cache
    let replay = handle_mesh(
        &mut relay,
        &conf_relay,
        &target,
        &mesh_frame(t.phy_payload, -70, 2),
    )
    .unwrap();
    assert!(matches!(replay, MeshAction::Drop));
}

#[test]
fn test_heartbeat_gains_path_entry_on_rerelay() {
    let conf = test_conf(false);
    let mut state = MeshState::new();
    let origin: [u8; 4] = [1, 1, 1, 1];
    let mut origin_state = MeshState::new();
    let t = send_events(
        &mut origin_state,
        &conf,
        &origin,
        500,
        vec![Event::Heartbeat(gateway_mesh::packets::HeartbeatPayload {
            relay_path: vec![],
        })],
    )
    .unwrap();
    // another relay re-transmits the heartbeat and signs its path entry
    let action = handle_mesh(
        &mut state,
        &conf,
        &[2, 2, 2, 2],
        &mesh_frame(t.phy_payload, -77, 4),
    )
    .unwrap();
    let relayed = match action {
        MeshAction::Transmit(t) => t.phy_payload,
        _ => panic!("expected a mesh transmission"),
    };
    let mut packet = MeshPacket::from_slice(&relayed).unwrap();
    assert_eq!(2, packet.mhdr.hop_count);
    packet
        .decrypt(gateway_mesh::aes128::get_encryption_key(Aes128Key::null()))
        .unwrap();
    match &packet.payload {
        Payload::Event(ev) => match &ev.events[0] {
            Event::Heartbeat(hb) => {
                assert_eq!(1, hb.relay_path.len());
                assert_eq!([2, 2, 2, 2], hb.relay_path[0].relay_id);
                assert_eq!(-77, hb.relay_path[0].rssi);
                assert_eq!(4, hb.relay_path[0].snr);
            }
            _ => panic!("expected a heartbeat event"),
        },
        _ => panic!("expected an event payload"),
    }
}

#[test]
fn test_relayed_downlink_item_wrap() {
    let conf = test_conf(true);
    let mut state = MeshState::new();
    let item = DownlinkItem {
        phy_payload: vec![9, 8, 7],
        frequency: 868100000,
        power: 14,
        data_rate: sf12(),
        timing: DownlinkTiming::Delay(5),
        context: vec![1, 2, 3, 1, 2, 3, 4, 0x00, 0x7b],
    };
    assert!(is_relayed_context(&item.context));
    assert!(!is_relayed_context(&[0, 1, 2, 3]));
    let t = relay_downlink_item(&mut state, &conf, &item).unwrap();
    let packet = MeshPacket::from_slice(&t.phy_payload).unwrap();
    match &packet.payload {
        Payload::Downlink(d) => {
            assert_eq!(123, d.metadata.uplink_id);
            assert_eq!([1, 2, 3, 4], d.relay_id);
            assert_eq!(868100000, d.metadata.frequency);
            assert_eq!(1, d.metadata.tx_power);
            assert_eq!(5, d.metadata.delay);
            assert_eq!(vec![9, 8, 7], d.phy_payload);
        }
        _ => panic!("expected a downlink payload"),
    }
    // an item without delay timing is refused
    let bad = DownlinkItem {
        phy_payload: vec![],
        frequency: 868100000,
        power: 14,
        data_rate: sf12(),
        timing: DownlinkTiming::Immediately,
        context: vec![1, 2, 3, 1, 2, 3, 4, 0, 0],
    };
    assert_eq!(
        "Only Delay timing is supported",
        relay_downlink_item(&mut state, &conf, &bad)
            .unwrap_err()
            .message()
    );
}

#[test]
fn test_ignore_direct_uplinks_scoped_to_border() {
    let phy = [1u8, 2, 3];
    // the flag drops direct uplinks on a Border Gateway only
    let mut border = test_conf(true);
    border.mesh.border_gateway_ignore_direct_uplinks = true;
    assert!(!gateway_mesh::mesh::accept_device_uplink(
        &border, true, &phy, true
    ));
    let mut relay = test_conf(false);
    relay.mesh.border_gateway_ignore_direct_uplinks = true;
    assert!(gateway_mesh::mesh::accept_device_uplink(
        &relay, true, &phy, true
    ));
    // the other gates hold on both roles
    assert!(!gateway_mesh::mesh::accept_device_uplink(
        &relay, false, &phy, true
    ));
    assert!(!gateway_mesh::mesh::accept_device_uplink(
        &relay, true, &phy, false
    ));
    assert!(!gateway_mesh::mesh::accept_device_uplink(
        &relay,
        true,
        &[0xe0, 1, 2],
        true
    ));
}

#[test]
fn test_hopper_round_robin_is_fair() {
    let mut conf = test_conf(false);
    conf.mesh.frequencies = vec![868100000, 868300000, 868500000];
    let mut state = MeshState::new();
    let mut counts = [0usize; 3];
    for _ in 0..9 {
        let f = state.get_mesh_frequency(&conf).unwrap();
        let idx = conf.mesh.frequencies.iter().position(|x| *x == f).unwrap();
        counts[idx] += 1;
    }
    assert_eq!([3, 3, 3], counts);
    // one more call makes the counts differ by at most one
    let f = state.get_mesh_frequency(&conf).unwrap();
    let idx = conf.mesh.frequencies.iter().position(|x| *x == f).unwrap();
    counts[idx] += 1;
    assert_eq!(10, counts[0] + counts[1] + counts[2]);
    assert!(counts.iter().all(|c| *c == 3 || *c == 4));
}

#[test]
fn test_helper_mappings() {
    let conf = test_conf(false);
    assert_eq!(
        1,
        gateway_mesh::helpers::frequency_to_chan(&conf.mappings, 868300000).unwrap()
    );
    assert_eq!(
        "Frequency does not map to a channel",
        gateway_mesh::helpers::frequency_to_chan(&conf.mappings, 1)
            .unwrap_err()
            .message()
    );
    assert_eq!(
        868500000,
        gateway_mesh::helpers::chan_to_frequency(&conf.mappings, 2).unwrap()
    );
    assert_eq!(
        "Channel does not map to a frequency",
        gateway_mesh::helpers::chan_to_frequency(&conf.mappings, 3)
            .unwrap_err()
            .message()
    );
    // tx power table [27, 14]: the largest value at or below the request
    // wins, wherever it stands in the table
    assert_eq!(
        1,
        gateway_mesh::helpers::tx_power_to_index(&conf.mappings, 20).unwrap()
    );
    assert_eq!(
        1,
        gateway_mesh::helpers::tx_power_to_index(&conf.mappings, 14).unwrap()
    );
    assert_eq!(
        0,
        gateway_mesh::helpers::tx_power_to_index(&conf.mappings, 30).unwrap()
    );
    assert_eq!(
        0,
        gateway_mesh::helpers::tx_power_to_index(&conf.mappings, 27).unwrap()
    );
    assert_eq!(
        "No TX Power equal or lower",
        gateway_mesh::helpers::tx_power_to_index(&conf.mappings, 1)
            .unwrap_err()
            .message()
    );
    assert_eq!(
        14,
        gateway_mesh::helpers::index_to_tx_power(&conf.mappings, 1).unwrap()
    );
    assert_eq!(
        0,
        gateway_mesh::helpers::modulation_to_dr(&conf.mappings, &sf12()).unwrap()
    );
    assert_eq!(
        sf12(),
        gateway_mesh::helpers::dr_to_modulation(&conf.mappings, 0).unwrap()
    );
}
