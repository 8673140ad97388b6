//! Settings parsing and RTCP packet checks.

use sfu_core::config::{Config, DEFAULT_MAX_ROOM_SIZE};
use sfu_core::rtcp::{gen_fir, gen_pli, has_fir, has_pli};

#[test]
fn config_reads_the_key() {
    assert_eq!(Config::from_text("max_room_size = 4").max_room_size, 4);
    assert_eq!(Config::from_text("max_room_size=12\n").max_room_size, 12);
    assert_eq!(
        Config::from_text("[general]\n  max_room_size\t= 7 \nother = 9\n").max_room_size,
        7
    );
}

#[test]
fn config_last_assignment_wins() {
    assert_eq!(
        Config::from_text("max_room_size = 4\nmax_room_size = 5\n").max_room_size,
        5
    );
}

#[test]
fn config_malformed_falls_back() {
    assert_eq!(Config::from_text("").max_room_size, DEFAULT_MAX_ROOM_SIZE);
    assert_eq!(
        Config::from_text("max_room_size = zero").max_room_size,
        DEFAULT_MAX_ROOM_SIZE
    );
    assert_eq!(
        Config::from_text("max_room_size = 0").max_room_size,
        DEFAULT_MAX_ROOM_SIZE
    );
    assert_eq!(
        Config::from_text("max_room_size = 12345678901").max_room_size,
        DEFAULT_MAX_ROOM_SIZE
    );
    assert_eq!(
        Config::from_text("; max_room_size = 4").max_room_size,
        DEFAULT_MAX_ROOM_SIZE
    );
    assert_eq!(
        Config::from_text("max_room_size 4").max_room_size,
        DEFAULT_MAX_ROOM_SIZE
    );
}

#[test]
fn config_default_is_conservative() {
    let c: Config = Default::default();
    assert_eq!(c.max_room_size, DEFAULT_MAX_ROOM_SIZE);
}

#[test]
fn pli_packet_shape() {
    let p = gen_pli();
    assert_eq!(p, vec![0x81, 206, 0, 2, 0, 0, 0, 0, 0, 0, 0, 0]);
    assert!(has_pli(&p));
    assert!(!has_fir(&p));
}

#[test]
fn fir_packet_shape_and_sequence() {
    let p = gen_fir(5);
    assert_eq!(p.len(), 20);
    assert_eq!(p[0], 0x84);
    assert_eq!(p[1], 206);
    assert_eq!(p[16], 5);
    assert!(has_fir(&p));
    assert!(!has_pli(&p));
    let q = gen_fir(260);
    assert_eq!(q[16], 4);
}

#[test]
fn compound_packet_is_walked() {
    // A receiver report (payload type 201, one word of body) followed
    // by a picture loss indication.
    let mut compound: Vec<u8> = vec![0x80, 201, 0, 1, 0, 0, 0, 0];
    compound.extend(gen_pli());
    assert!(has_pli(&compound));
    assert!(!has_fir(&compound));
}

#[test]
fn malformed_rtcp_is_ignored() {
    assert!(!has_pli(&[]));
    assert!(!has_pli(&[0x81, 206]));
    // wrong version bits
    assert!(!has_pli(&[0x01, 206, 0, 2, 0, 0, 0, 0, 0, 0, 0, 0]));
}
