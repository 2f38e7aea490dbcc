use bytes::Bytes;
use noq_datagram::frame::{Datagram, PacketBuilder};
use noq_datagram::words::{read_word, word_to_vec, write_bytes, write_word};

fn datagram(n: usize) -> Datagram {
    Datagram { data: Bytes::from(vec![1; n]) }
}

fn encoded(n: usize, length: bool) -> Vec<u8> {
    let mut out = Vec::new();
    datagram(n).encode(length, &mut out);
    out
}

#[test]
fn frames_have_a_length_prefix_if_asked() {
    assert_eq!(encoded(2, false), vec![0x30, 1, 1]);
    assert_eq!(encoded(2, true), vec![0x31, 2, 1, 1]);
    assert_eq!(encoded(0, true), vec![0x31, 0]);
}

#[test]
fn the_prefix_is_as_short_as_the_length_allows() {
    assert_eq!(&encoded(63, true)[..2], &[0x31, 63]);
    assert_eq!(&encoded(64, true)[..3], &[0x31, 0x40, 64]);
    assert_eq!(&encoded(16383, true)[..3], &[0x31, 0x7f, 0xff]);
    assert_eq!(&encoded(16384, true)[..5], &[0x31, 0x80, 0, 0x40, 0]);
}

#[test]
fn the_size_is_that_of_the_encoding() {
    for n in [0, 1, 63, 64, 16383, 16384, 65535] {
        for length in [false, true] {
            assert_eq!(datagram(n).size(length), encoded(n, length).len());
        }
    }
}

#[test]
fn the_space_of_a_packet_is_what_is_left() {
    let packet = PacketBuilder { buf: vec![0; 10], limit: 15 };
    assert_eq!(packet.frame_space_remaining(), 5);
    let packet = PacketBuilder { buf: vec![0; 20], limit: 15 };
    assert_eq!(packet.frame_space_remaining(), 0);
}

#[test]
fn words_are_stored_in_either_order() {
    assert_eq!(word_to_vec(0x01020304, 4, true), vec![1, 2, 3, 4]);
    assert_eq!(word_to_vec(0x01020304, 4, false), vec![4, 3, 2, 1]);
    assert_eq!(word_to_vec(0x01020304, 2, true), vec![3, 4]);
    for big_endian in [false, true] {
        for v in [0, 1, 0x1234_5678_9abc_def0, u64::MAX] {
            let mut buf = vec![9; 10];
            write_word(&mut buf, 1, 8, v, big_endian);
            assert_eq!(read_word(&buf, 1, 8, big_endian), v);
            assert_eq!((buf[0], buf[9]), (9, 9));
        }
    }
}

#[test]
fn bytes_are_replaced_in_place() {
    let mut buf = vec![0; 5];
    write_bytes(&mut buf, 1, &[1, 2, 3]);
    assert_eq!(buf, vec![0, 1, 2, 3, 0]);
}
