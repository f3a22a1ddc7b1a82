use hpil::hpil::{Message, MessageClass, MessageType, PhyBitDecoder, PhySample, PollPhy};

fn read_all(phy: &PhyBitDecoder) -> Vec<PhySample> {
    let mut rs: Vec<PhySample> = Vec::new();
    let mut it = phy.samples();
    loop {
        match it.next() {
            Some(s) => rs.push(s),
            None => break,
        }
    }
    rs
}

#[test]
fn test_sample_iter() {
    let mut phy = PhyBitDecoder::default();

    let samples = [PhySample::Neg, PhySample::Pos, PhySample::Zero];

    for &s in samples.iter() {
        phy.push(s);
    }

    let rs: Vec<PhySample> = read_all(&phy);

    assert_eq!(&samples[..], &rs[..]);
}

#[test]
fn buffer_round_trip_after_prior_content() {
    let mut phy = PhyBitDecoder::new();
    phy.push(PhySample::Zero);
    phy.push(PhySample::Pos);
    for &s in [PhySample::Neg, PhySample::Pos, PhySample::Zero].iter() {
        phy.push(s);
    }
    let rs = read_all(&phy);
    assert_eq!(
        rs,
        vec![
            PhySample::Zero,
            PhySample::Pos,
            PhySample::Neg,
            PhySample::Pos,
            PhySample::Zero
        ]
    );
}

#[test]
fn buffer_evicts_oldest_at_capacity() {
    let cycle = [PhySample::Pos, PhySample::Neg, PhySample::Zero];
    let pushed: Vec<PhySample> = (0..17).map(|i| cycle[i % 3]).collect();
    let mut phy = PhyBitDecoder::new();
    for &s in pushed.iter() {
        phy.push(s);
    }
    let rs = read_all(&phy);
    assert_eq!(rs.len(), 16);
    assert_eq!(&rs[..], &pushed[1..]);
}

#[test]
fn sample_bits_round_trip() {
    for &s in [PhySample::Zero, PhySample::Pos, PhySample::Neg].iter() {
        assert_eq!(PhySample::from_bits(s.as_bits()), Some(s));
    }
    assert_eq!(PhySample::from_bits(0), None);
    assert_eq!(PhySample::from_bits(4), None);
}

#[test]
fn decode_bit_one_without_sync() {
    let mut d = PhyBitDecoder::new();
    for &s in [
        PhySample::Pos,
        PhySample::Neg,
        PhySample::Zero,
        PhySample::Zero,
    ]
    .iter()
    {
        d.push(s);
    }
    let (found, bit, sync) = d.decode_suffix();
    assert!(found);
    assert!(bit);
    assert!(!sync);
}

#[test]
fn decode_bit_zero_without_sync() {
    let mut d = PhyBitDecoder::new();
    for &s in [
        PhySample::Neg,
        PhySample::Pos,
        PhySample::Zero,
        PhySample::Zero,
    ]
    .iter()
    {
        d.push(s);
    }
    let (found, bit, sync) = d.decode_suffix();
    assert!(found);
    assert!(!bit);
    assert!(!sync);
}

#[test]
fn decode_bit_one_with_sync() {
    let mut d = PhyBitDecoder::new();
    for &s in [
        PhySample::Pos,
        PhySample::Neg,
        PhySample::Pos,
        PhySample::Neg,
        PhySample::Zero,
        PhySample::Zero,
    ]
    .iter()
    {
        d.push(s);
    }
    let (found, bit, sync) = d.decode_suffix();
    assert!(found);
    assert!(bit);
    assert!(sync);
}

#[test]
fn decode_bit_zero_with_sync() {
    let mut d = PhyBitDecoder::new();
    for &s in [
        PhySample::Neg,
        PhySample::Pos,
        PhySample::Neg,
        PhySample::Pos,
        PhySample::Zero,
        PhySample::Zero,
    ]
    .iter()
    {
        d.push(s);
    }
    let (found, bit, sync) = d.decode_suffix();
    assert!(found);
    assert!(!bit);
    assert!(sync);
}

#[test]
fn decode_tolerates_oversampling() {
    // Every level sampled twice: runs collapse to the same transitions.
    let mut d = PhyBitDecoder::new();
    for &s in [
        PhySample::Pos,
        PhySample::Pos,
        PhySample::Neg,
        PhySample::Neg,
        PhySample::Zero,
    ]
    .iter()
    {
        d.push(s);
    }
    let (found, bit, sync) = d.decode_suffix();
    assert!(found && bit && !sync);

    let mut d2 = PhyBitDecoder::new();
    for &s in [
        PhySample::Pos,
        PhySample::Pos,
        PhySample::Neg,
        PhySample::Neg,
        PhySample::Pos,
        PhySample::Pos,
        PhySample::Neg,
        PhySample::Neg,
        PhySample::Zero,
    ]
    .iter()
    {
        d2.push(s);
    }
    let (found2, bit2, sync2) = d2.decode_suffix();
    assert!(found2 && bit2 && sync2);
}

/// The tri-state sample sequence that encodes one bit, with or without the
/// synchronization marker.
fn bit_pattern(bit: bool, sync: bool) -> Vec<PhySample> {
    let mut v = Vec::new();
    let reps = if sync { 2 } else { 1 };
    for _ in 0..reps {
        if bit {
            v.push(PhySample::Pos);
            v.push(PhySample::Neg);
        } else {
            v.push(PhySample::Neg);
            v.push(PhySample::Pos);
        }
    }
    v.push(PhySample::Zero);
    v.push(PhySample::Zero);
    v
}

/// Feed the sample patterns of the given bits (the first one
/// synchronization-bearing) and return each completed message together with
/// the index of the bit during which it appeared.
fn feed_frame(p: &mut PollPhy, bits: &[bool]) -> Vec<(usize, Message)> {
    let mut out = Vec::new();
    for (k, &b) in bits.iter().enumerate() {
        for s in bit_pattern(b, k == 0) {
            if let Some(m) = p.push_sample(s) {
                out.push((k, m));
            }
        }
    }
    out
}

fn frame_bits(raw: u16) -> Vec<bool> {
    (0..11).map(|k| raw & (1 << (10 - k)) != 0).collect()
}

#[test]
fn frame_assembly_yields_one_message() {
    let mut p = PollPhy::new();
    let msgs = feed_frame(&mut p, &frame_bits(0b100_10010000));
    assert_eq!(msgs.len(), 1);
    // Nothing is emitted before the eleventh bit.
    assert_eq!(msgs[0].0, 10);
    let m = &msgs[0].1;
    assert_eq!(m.raw_value(), 0b100_10010000);
    assert_eq!(m.control(), 0b100);
    assert_eq!(m.data(), 0b10010000);
    assert_eq!(m.class(), MessageClass::Command);
    assert_eq!(m.message_type(), Some(MessageType::ReadyForCommand));
}

#[test]
fn frame_assembly_consecutive_frames() {
    let mut p = PollPhy::new();
    let first = feed_frame(&mut p, &frame_bits(0b101_01100000));
    let second = feed_frame(&mut p, &frame_bits(0b100_00111111));
    assert_eq!(first.len(), 1);
    assert_eq!(second.len(), 1);
    assert_eq!(first[0].1.raw_value(), 0b101_01100000);
    assert_eq!(first[0].1.class(), MessageClass::Ready);
    assert_eq!(first[0].1.message_type(), Some(MessageType::SendDataReady));
    assert_eq!(second[0].1.raw_value(), 0b100_00111111);
    assert_eq!(second[0].1.message_type(), Some(MessageType::Unlisten));
}

#[test]
fn resynchronization_discards_partial_frame() {
    let mut p = PollPhy::new();
    // A synchronization bit and three more bits: an incomplete frame.
    let mut partial = Vec::new();
    for (k, &b) in [true, true, true, true].iter().enumerate() {
        for s in bit_pattern(b, k == 0) {
            partial.push(p.push_sample(s));
        }
    }
    assert!(partial.iter().all(|r| r.is_none()));
    // A new synchronization pattern restarts framing; only the new frame is
    // ever emitted.
    let msgs = feed_frame(&mut p, &frame_bits(0b100_00111111));
    assert_eq!(msgs.len(), 1);
    assert_eq!(msgs[0].1.raw_value(), 0b100_00111111);
}

#[test]
fn unrecognized_sequences_yield_nothing() {
    let mut p = PollPhy::new();
    for &s in [PhySample::Zero, PhySample::Pos, PhySample::Zero].iter() {
        assert_eq!(p.push_sample(s), None);
    }
    // The framer scans on: the next valid pattern is still recognized.
    let mut d = PhyBitDecoder::new();
    for &s in [
        PhySample::Zero,
        PhySample::Pos,
        PhySample::Zero,
        PhySample::Neg,
        PhySample::Pos,
        PhySample::Zero,
    ]
    .iter()
    {
        d.push(s);
    }
    let (found, bit, sync) = d.decode_suffix();
    assert!(found && !bit && !sync);
}

#[test]
fn plain_bit_before_sync_is_discarded() {
    let mut p = PollPhy::new();
    p.push_raw_sample(PhySample::Pos);
    p.push_raw_sample(PhySample::Neg);
    p.push_raw_sample(PhySample::Zero);
    // A bit is recognized, but with no synchronization bit seen there is no
    // frame to extend and no message.
    assert!(p.check_seq());
    assert_eq!(p.take_message(), None);
}

#[test]
fn control_field_is_known_after_three_bits() {
    let mut p = PollPhy::new();
    assert_eq!(p.control_so_far(), None);
    // Synchronization bit 1, then bits 0 and 0: control field 0b100.
    for (k, &b) in [true, false, false].iter().enumerate() {
        for s in bit_pattern(b, k == 0) {
            assert_eq!(p.push_sample(s), None);
        }
    }
    assert_eq!(p.control_so_far(), Some(0b100));
}

#[test]
fn message_masks_to_eleven_bits() {
    let m = Message::new(0xffff);
    assert_eq!(m.raw_value(), 0x7ff);
}

#[test]
fn message_classes_by_control_field() {
    assert_eq!(Message::new(0b000_01010101).class(), MessageClass::DataOrEnd);
    assert_eq!(Message::new(0b001_01010101).class(), MessageClass::DataOrEnd);
    assert_eq!(Message::new(0b010_01010101).class(), MessageClass::Unassigned);
    assert_eq!(Message::new(0b011_01010101).class(), MessageClass::Unassigned);
    assert_eq!(Message::new(0b100_01010101).class(), MessageClass::Command);
    assert_eq!(Message::new(0b101_01010101).class(), MessageClass::Ready);
    assert_eq!(Message::new(0b110_01010101).class(), MessageClass::Identify);
    assert_eq!(Message::new(0b111_01010101).class(), MessageClass::Identify);
}

#[test]
fn message_accessors_split_the_frame() {
    let m = Message::new(0b101_11001010);
    assert_eq!(m.control(), 0b101);
    assert_eq!(m.data(), 0b11001010);
    assert_eq!(m.message_type(), None);
}
