use enet::time::PacketTime;

#[test]
fn packet_time_round_trips_over_sixteen_bits() {
    for millis in [0u64, 1, 500, 0x7FFF, 0x8000, 0xABCD, 0xFFFF] {
        let pt = PacketTime::from_duration(millis);
        assert_eq!(pt.to_duration(millis), Some(millis));
    }
}

#[test]
fn packet_time_keeps_high_bits_of_current_time() {
    // 0x2_0123 ms ago-truncated to 16 bits, expanded against a clock a
    // little later in the same 16-bit window.
    let sent: u64 = 0x2_0123;
    let pt = PacketTime::from_duration(sent);
    assert_eq!(pt.0, 0x0123);
    assert_eq!(pt.to_duration(0x2_0456), Some(sent));
}

#[test]
fn packet_time_wraps_backwards_across_a_window() {
    // Sent just before a 16-bit wrap, expanded against a clock just after
    // it: one whole window is subtracted.
    let sent: u64 = 0xFFFF;
    let pt = PacketTime::from_duration(sent);
    assert_eq!(pt.to_duration(0x1_0005), Some(sent));
}

#[test]
fn packet_time_in_the_future_is_invalid() {
    let pt = PacketTime::from_duration(600);
    assert_eq!(pt.to_duration(599), None);
    // Ahead of the clock within the same upper half-window.
    let pt = PacketTime::from_duration(0x8001);
    assert_eq!(pt.to_duration(0x8000), None);
    // The sign bit flips against a clock still in the first window:
    // there is no earlier window to wrap back into.
    let pt = PacketTime::from_duration(0x8000);
    assert_eq!(pt.to_duration(0x7FFF), None);
}
