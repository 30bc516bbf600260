use webrtc::receive_log::{ReceiveLog, ReceiveLogError};

#[test]
fn test_received_buffer() {
    let tests: Vec<u16> = vec![
        0, 1, 127, 128, 129, 511, 512, 513, 32767, 32768, 32769, 65407, 65408, 65409, 65534,
        65535,
    ];
    for start in tests {
        let mut rl = ReceiveLog::new(128).unwrap();

        let all = |min: u16, max: u16| -> Vec<u16> {
            let mut result = vec![];
            let mut i = min;
            let (max_plus_1, _) = max.overflowing_add(1);
            while i != max_plus_1 {
                result.push(i);
                let (j, _) = i.overflowing_add(1);
                i = j;
            }
            result
        };

        let join = |parts: &[&[u16]]| -> Vec<u16> {
            let mut result = vec![];
            for p in parts {
                result.extend_from_slice(*p);
            }
            result
        };

        let add = |rl: &mut ReceiveLog, nums: &[u16]| {
            for n in nums {
                let (seq, _) = start.overflowing_add(*n);
                rl.add(seq);
            }
        };

        let assert_get = |rl: &ReceiveLog, nums: &[u16]| {
            for n in nums {
                let (seq, _) = start.overflowing_add(*n);
                assert!(rl.get(seq), "not found: {}", seq);
            }
        };

        let assert_not_get = |rl: &ReceiveLog, nums: &[u16]| {
            for n in nums {
                let (seq, _) = start.overflowing_add(*n);
                assert!(
                    !rl.get(seq),
                    "packet found: start {}, n {}, seq {}",
                    start,
                    *n,
                    seq
                );
            }
        };

        let assert_missing = |rl: &ReceiveLog, skip_last_n: u16, nums: &[u16]| {
            let missing = rl.missing_seq_numbers(skip_last_n);
            let mut want = vec![];
            for n in nums {
                let (seq, _) = start.overflowing_add(*n);
                want.push(seq);
            }
            assert_eq!(want, missing, "missing want/got, ");
        };

        let assert_last_consecutive = |rl: &ReceiveLog, last_consecutive: u16| {
            let (want, _) = last_consecutive.overflowing_add(start);
            assert_eq!(rl.last_consecutive(), want, "invalid last_consecutive want");
        };

        add(&mut rl, &[0]);
        assert_get(&rl, &[0]);
        assert_missing(&rl, 0, &[]);
        assert_last_consecutive(&rl, 0); // first element added

        add(&mut rl, &all(1, 127));
        assert_get(&rl, &all(1, 127));
        assert_missing(&rl, 0, &[]);
        assert_last_consecutive(&rl, 127);

        add(&mut rl, &[128]);
        assert_get(&rl, &[128]);
        assert_not_get(&rl, &[0]);
        assert_missing(&rl, 0, &[]);
        assert_last_consecutive(&rl, 128);

        add(&mut rl, &[130]);
        assert_get(&rl, &[130]);
        assert_not_get(&rl, &[1, 2, 129]);
        assert_missing(&rl, 0, &[129]);
        assert_last_consecutive(&rl, 128);

        add(&mut rl, &[333]);
        assert_get(&rl, &[333]);
        assert_not_get(&rl, &all(0, 332));
        assert_missing(&rl, 0, &all(206, 332)); // all 127 elements missing before 333
        assert_missing(&rl, 10, &all(206, 323)); // skip last 10 packets (324-333) from check
        assert_last_consecutive(&rl, 205); // lastConsecutive is still out of the buffer

        add(&mut rl, &[329]);
        assert_get(&rl, &[329]);
        assert_missing(&rl, 0, &join(&[&all(206, 328), &all(330, 332)]));
        assert_missing(&rl, 5, &join(&[&all(206, 328)])); // skip last 5 packets (329-333) from check
        assert_last_consecutive(&rl, 205);

        add(&mut rl, &all(207, 320));
        assert_get(&rl, &all(207, 320));
        assert_missing(&rl, 0, &join(&[&[206], &all(321, 328), &all(330, 332)]));
        assert_last_consecutive(&rl, 205);

        add(&mut rl, &[334]);
        assert_get(&rl, &[334]);
        assert_not_get(&rl, &[206]);
        assert_missing(&rl, 0, &join(&[&all(321, 328), &all(330, 332)]));
        assert_last_consecutive(&rl, 320); // head of buffer is full of consecutive packages

        add(&mut rl, &all(322, 328));
        assert_get(&rl, &all(322, 328));
        assert_missing(&rl, 0, &join(&[&[321], &all(330, 332)]));
        assert_last_consecutive(&rl, 320);

        add(&mut rl, &[321]);
        assert_get(&rl, &[321]);
        assert_missing(&rl, 0, &all(330, 332));
        assert_last_consecutive(&rl, 329); // after adding a single missing packet, lastConsecutive should jump forward
    }

}

#[test]
fn test_receive_log_sizes() {
    for i in 6..16u32 {
        assert!(ReceiveLog::new(1u16 << i).is_ok());
    }
    for size in [0u16, 1, 32, 63, 65, 100, 129, 1000, 65535] {
        assert_eq!(ReceiveLog::new(size).err(), Some(ReceiveLogError::ErrInvalidSize));
    }
}

#[test]
fn test_receive_log_add_then_get() {
    let mut rl = ReceiveLog::new(64).unwrap();
    rl.add(10);
    assert!(rl.get(10));
    assert!(!rl.get(9));
    rl.add(12);
    assert!(rl.get(12));
    assert_eq!(rl.missing_seq_numbers(0), vec![11]);
    assert_eq!(rl.missing_seq_numbers(1), vec![11]);
    assert_eq!(rl.missing_seq_numbers(2), Vec::<u16>::new());
    rl.add(11);
    assert_eq!(rl.last_consecutive(), 12);
    assert_eq!(rl.missing_seq_numbers(0), Vec::<u16>::new());
    // a packet far behind the newest one is out of the window
    rl.add(12u16.wrapping_sub(100));
    assert!(!rl.get(12u16.wrapping_sub(100)));
    // wrap around the sequence number space
    let mut rl = ReceiveLog::new(64).unwrap();
    rl.add(65534);
    rl.add(1);
    assert!(rl.get(1));
    assert!(rl.get(65534));
    assert_eq!(rl.missing_seq_numbers(0), vec![65535, 0]);
}
