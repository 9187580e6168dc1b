use null_escape::scan::{process_input, process_input2, transform};
use null_escape::stream::{on_read, on_write, Next, ShortWrite};
use null_escape::transducer::Transducer;

fn whole(input: &[u8]) -> Vec<u8> {
    let mut sink: Vec<u8> = Vec::new();
    transform(input, &mut sink);
    sink
}

fn corpus() -> Vec<Vec<u8>> {
    vec![
        vec![],
        vec![0x5c],
        vec![0x30],
        vec![0x5c, 0x30],
        vec![0x5c, 0x5c, 0x30],
        vec![0x5c, 0x5c, 0x5c, 0x30],
        vec![0x5c, 0x5c, 0x5c, 0x5c, 0x30],
        vec![0x5c, 0x5c, 0x5c, 0x30, 0x30],
        vec![0x5c, 0x5c, 0x5c, 0x5c, 0x30, 0x30],
        vec![0x5c, 0x5c, 0x5c, 0x40],
        vec![0x41, 0x5c, 0x30, 0x42, 0x5c, 0x5c, 0x30, 0x43, 0x5c],
        vec![0x30, 0x30, 0x5c, 0x30, 0x5c, 0x30, 0x5c, 0x5c, 0x5c, 0x30, 0x41, 0x41],
        vec![0x61, 0x62, 0x63, 0x64, 0x65],
        vec![0x5c, 0x6e, 0x5c, 0x5c, 0x5c, 0x6e, 0x5c, 0x30, 0x00, 0x5c, 0x5c],
    ]
}

#[test]
fn identity_without_backslash() {
    let all_but_backslash: Vec<u8> = (0u8..=255).filter(|b| *b != 0x5c).collect();
    assert_eq!(whole(&all_but_backslash), all_but_backslash);
    let digits: Vec<u8> = vec![0x30, 0x30, 0x31, 0x30, 0x00, 0x30];
    assert_eq!(whole(&digits), digits);
    for first_variant in [true, false] {
        let mut state = Transducer::new();
        let mut sink: Vec<u8> = Vec::new();
        if first_variant {
            process_input(&mut state, &all_but_backslash, &mut sink);
        } else {
            process_input2(&mut state, &all_but_backslash, &mut sink);
        }
        assert_eq!(state.run(), 0);
        assert_eq!(sink, all_but_backslash);
    }
}

#[test]
fn collapse_rule_by_run_length() {
    for n in 0usize..12 {
        let mut input: Vec<u8> = vec![0x5c; n];
        input.push(0x30);
        let expected: Vec<u8> = if n % 2 == 1 {
            let mut e = vec![0x5c; n - 1];
            e.push(0x00);
            e
        } else {
            input.clone()
        };
        assert_eq!(whole(&input), expected);
    }
}

#[test]
fn collapse_rule_inside_a_stream() {
    for n in 0usize..9 {
        let mut input: Vec<u8> = vec![0x41, 0x30];
        input.extend(vec![0x5c; n]);
        input.push(0x30);
        input.extend([0x5c, 0x30, 0x42]);
        let mut expected: Vec<u8> = vec![0x41, 0x30];
        if n % 2 == 1 {
            expected.extend(vec![0x5c; n - 1]);
            expected.push(0x00);
        } else {
            expected.extend(vec![0x5c; n]);
            expected.push(0x30);
        }
        expected.extend([0x00, 0x42]);
        assert_eq!(whole(&input), expected);
    }
}

#[test]
fn run_is_zero_after_a_decision() {
    for n in 0usize..9 {
        let mut input: Vec<u8> = vec![0x5c; n];
        input.push(0x30);
        let mut state = Transducer::new();
        let mut sink: Vec<u8> = Vec::new();
        process_input(&mut state, &input, &mut sink);
        assert_eq!(state.run(), 0);
        let before = sink.len();
        process_input(&mut state, &[0x30], &mut sink);
        assert_eq!(&sink[before..], &[0x30]);
        assert_eq!(state.run(), 0);

        let mut state2 = Transducer::new();
        let mut sink2: Vec<u8> = Vec::new();
        process_input2(&mut state2, &input, &mut sink2);
        assert_eq!(state2.run(), 0);
    }
}

#[test]
fn run_counts_the_open_run_exactly() {
    let mut state = Transducer::new();
    let mut sink: Vec<u8> = Vec::new();
    process_input(&mut state, &[0x41, 0x5c, 0x5c, 0x5c], &mut sink);
    assert_eq!(state.run(), 3);
    process_input2(&mut state, &[0x5c, 0x5c], &mut sink);
    assert_eq!(state.run(), 5);
    assert_eq!(sink, vec![0x41, 0x5c, 0x5c, 0x5c, 0x5c]);
    process_input(&mut state, &[0x30], &mut sink);
    assert_eq!(state.run(), 0);
    assert_eq!(sink, vec![0x41, 0x5c, 0x5c, 0x5c, 0x5c, 0x00]);
}

#[test]
fn chunk_boundary_invariance_every_cut() {
    for input in corpus() {
        let expected = whole(&input);
        for cut in 0..=input.len() {
            for variant in 0..4 {
                let mut state = Transducer::new();
                let mut sink: Vec<u8> = Vec::new();
                if variant & 1 == 0 {
                    process_input(&mut state, &input[..cut], &mut sink);
                } else {
                    process_input2(&mut state, &input[..cut], &mut sink);
                }
                if variant & 2 == 0 {
                    process_input(&mut state, &input[cut..], &mut sink);
                } else {
                    process_input2(&mut state, &input[cut..], &mut sink);
                }
                state.finish(&mut sink);
                assert_eq!(sink, expected);
            }
        }
    }
}

#[test]
fn chunk_boundary_invariance_byte_by_byte() {
    for input in corpus() {
        let expected = whole(&input);
        let mut state = Transducer::new();
        let mut sink: Vec<u8> = Vec::new();
        for at in 0..input.len() {
            process_input(&mut state, &input[at..at + 1], &mut sink);
        }
        state.finish(&mut sink);
        assert_eq!(sink, expected);

        let mut state2 = Transducer::new();
        let mut sink2: Vec<u8> = Vec::new();
        for byte in input.iter() {
            state2.step(*byte, &mut sink2);
        }
        state2.finish(&mut sink2);
        assert_eq!(sink2, expected);
    }
}

#[test]
fn pair_straddling_a_cut_collapses() {
    let mut state = Transducer::new();
    let mut sink: Vec<u8> = Vec::new();
    process_input(&mut state, &[0x41, 0x5c], &mut sink);
    assert_eq!(sink, vec![0x41]);
    assert_eq!(state.run(), 1);
    process_input(&mut state, &[0x30, 0x42], &mut sink);
    assert_eq!(sink, vec![0x41, 0x00, 0x42]);
    assert_eq!(state.run(), 0);
}

#[test]
fn both_variants_agree() {
    for input in corpus() {
        let mut state = Transducer::new();
        let mut sink: Vec<u8> = Vec::new();
        process_input(&mut state, &input, &mut sink);
        let mut state2 = Transducer::new();
        let mut sink2: Vec<u8> = Vec::new();
        process_input2(&mut state2, &input, &mut sink2);
        assert_eq!(sink, sink2);
        assert_eq!(state.run(), state2.run());
    }
}

#[test]
fn every_byte_is_accounted_for() {
    let input: Vec<u8> = vec![0x41, 0x5c, 0x30, 0x42, 0x5c, 0x5c, 0x30, 0x43, 0x5c, 0x5c, 0x5c, 0x30];
    let output = whole(&input);
    assert_eq!(output, vec![0x41, 0x00, 0x42, 0x5c, 0x5c, 0x30, 0x43, 0x5c, 0x5c, 0x00]);
    assert_eq!(output.len() + 2, input.len());
    for input in corpus() {
        assert!(whole(&input).len() <= input.len());
    }
}

#[test]
fn chunk_output_may_be_longer_than_the_chunk() {
    let mut state = Transducer::new();
    let mut sink: Vec<u8> = Vec::new();
    process_input(&mut state, &[0x5c], &mut sink);
    assert_eq!(sink.len(), 0);
    process_input(&mut state, &[0x40], &mut sink);
    assert_eq!(sink, vec![0x5c, 0x40]);
}

#[test]
fn a_read_of_nothing_ends_the_stream() {
    let mut state = Transducer::new();
    let mut sink: Vec<u8> = Vec::new();
    assert_eq!(on_read(&mut state, &[0x41, 0x5c, 0x5c], &mut sink), Next::Read);
    assert_eq!(sink, vec![0x41, 0x5c]);
    assert_eq!(state.run(), 2);
    assert_eq!(on_read(&mut state, &[], &mut sink), Next::Stop);
    assert_eq!(sink, vec![0x41, 0x5c, 0x5c]);
    assert_eq!(state.run(), 0);
}

#[test]
fn a_pass_over_reads_rewrites_the_stream() {
    let input: Vec<u8> = vec![0x30, 0x5c, 0x30, 0x5c, 0x5c, 0x30, 0x5c, 0x5c, 0x5c, 0x30, 0x5c];
    for size in 1..=input.len() {
        let mut state = Transducer::new();
        let mut sink: Vec<u8> = Vec::new();
        let mut at = 0;
        loop {
            let end = usize::min(at + size, input.len());
            let next = on_read(&mut state, &input[at..end], &mut sink);
            at = end;
            if next == Next::Stop {
                break;
            }
        }
        assert_eq!(sink, whole(&input));
    }
}

#[test]
fn short_write_is_a_failure() {
    assert_eq!(on_write(10, 10), Ok(()));
    assert_eq!(on_write(0, 0), Ok(()));
    assert_eq!(on_write(10, 9), Err(ShortWrite { requested: 10, written: 9 }));
    assert_eq!(on_write(1, 0), Err(ShortWrite { requested: 1, written: 0 }));
    assert_eq!(on_write(3, 4), Ok(()));
}
