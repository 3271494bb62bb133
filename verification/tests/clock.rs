use postgres_backend::timestamp::Timestamp;
use zenoh::time::{Timestamp as HostTimestamp, TimestampId, NTP64};

fn id_bytes(first: u8, middle: u8, last: u8) -> [u8; 16] {
    let mut bytes = [0u8; 16];
    bytes[0] = first;
    bytes[7] = middle;
    bytes[15] = last;
    bytes
}

#[test]
fn from_clock_reads_first_byte_as_most_significant() {
    let low = Timestamp::from_clock(5, &id_bytes(0, 0, 1));
    assert_eq!(low, Timestamp::new(5, 1));
    let high = Timestamp::from_clock(5, &id_bytes(1, 0, 0));
    assert_eq!(high, Timestamp::new(5, 1u128 << 120));
    let mixed = Timestamp::from_clock(9, &id_bytes(0x12, 0x34, 0x56));
    assert_eq!(mixed.time, 9);
    assert_eq!(mixed.id, (0x12u128 << 120) + (0x34u128 << 64) + 0x56);
    assert_eq!(Timestamp::from_clock(0, &[0u8; 16]), Timestamp::new(0, 0));
    assert_eq!(Timestamp::from_clock(u64::MAX, &[0xff; 16]), Timestamp::new(u64::MAX, u128::MAX));
}

#[test]
fn clock_id_gives_the_bytes_back() {
    let samples = [
        [0u8; 16],
        [0xff; 16],
        id_bytes(1, 0, 0),
        id_bytes(0, 0, 1),
        id_bytes(0x12, 0x34, 0x56),
        [1, 2, 3, 4, 5, 6, 7, 8, 9, 10, 11, 12, 13, 14, 15, 16],
    ];
    for bytes in samples {
        assert_eq!(Timestamp::from_clock(3, &bytes).clock_id(), bytes);
    }
    assert_eq!(Timestamp::new(1, 1).clock_id(), id_bytes(0, 0, 1));
    assert_eq!(Timestamp::new(1, 256).clock_id()[14], 1);
    assert_eq!(Timestamp::new(1, u128::MAX).clock_id(), [0xff; 16]);
}

#[test]
fn order_agrees_with_the_host_clock() {
    let ids = [
        id_bytes(1, 0, 0),
        id_bytes(0, 0, 1),
        id_bytes(0, 1, 0),
        id_bytes(2, 0, 0),
        id_bytes(1, 0, 9),
        id_bytes(0, 255, 255),
        id_bytes(255, 0, 1),
        [7, 1, 1, 1, 1, 1, 1, 1, 1, 1, 1, 1, 1, 1, 1, 1],
    ];
    let times = [0u64, 1, 99, 100, u64::MAX];
    let mut host: Vec<HostTimestamp> = Vec::new();
    let mut ours: Vec<Timestamp> = Vec::new();
    for time in times {
        for id in ids {
            let host_id = TimestampId::try_from(id).unwrap();
            let stamp = HostTimestamp::new(NTP64(time), host_id);
            ours.push(Timestamp::from_clock(stamp.get_time().as_u64(), &stamp.get_id().to_le_bytes()));
            host.push(stamp);
        }
    }
    for a in 0..host.len() {
        for b in 0..host.len() {
            assert_eq!(ours[a].is_before(&ours[b]), host[a] < host[b]);
            assert_eq!(ours[a] == ours[b], host[a] == host[b]);
        }
    }
}
