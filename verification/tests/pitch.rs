use fretscope::pitch::{octave, pitch_class, SampleWindow, DETECTION_WINDOW, HOP_SIZE};

#[test]
fn pitch_class_and_octave() {
    assert_eq!(pitch_class(60), 0);
    assert_eq!(pitch_class(69), 9);
    assert_eq!(octave(60), 4);
    assert_eq!(octave(69), 4);
    assert_eq!(octave(11), -1);
    assert_eq!(octave(40), 2);
}

#[test]
fn no_window_until_full() {
    let mut w: SampleWindow<u32> = SampleWindow::new();
    let block: Vec<u32> = (0..512).collect();
    for _ in 0..3 {
        assert!(w.feed(&block).is_none());
    }
    // 2048 samples now: a full window and more than a hop
    let window = w.feed(&block).expect("window");
    assert_eq!(window.len(), DETECTION_WINDOW);
}

#[test]
fn window_is_latest_samples_and_hops() {
    let mut w: SampleWindow<u32> = SampleWindow::new();
    let mut next = 0u32;
    let mut windows = Vec::new();
    for _ in 0..20 {
        let block: Vec<u32> = (next..next + 256).collect();
        next += 256;
        if let Some(win) = w.feed(&block) {
            assert_eq!(win.len(), DETECTION_WINDOW);
            // the last DETECTION_WINDOW samples of the stream
            let expected: Vec<u32> = (next - DETECTION_WINDOW as u32..next).collect();
            assert_eq!(win, expected);
            windows.push(next);
        }
    }
    // first at 2048 samples, then every hop
    assert_eq!(windows, vec![2048, 2048 + 1024, 2048 + 2048, 2048 + 3072]);
    assert_eq!(HOP_SIZE, 1024);
}

#[test]
fn one_huge_block_gives_its_tail() {
    let mut w: SampleWindow<u32> = SampleWindow::new();
    let block: Vec<u32> = (0..10_000).collect();
    let win = w.feed(&block).expect("window");
    assert_eq!(win[0], 10_000 - DETECTION_WINDOW as u32);
    assert_eq!(*win.last().unwrap(), 9_999);
    // the buffer was cut back: the next hop needs a full hop of new samples
    assert!(w.feed(&vec![1u32; HOP_SIZE - 1]).is_none());
    let win2 = w.feed(&[7u32]).expect("window");
    assert_eq!(*win2.last().unwrap(), 7);
}

#[test]
fn detection_needs_full_window_and_hop() {
    let mut w: SampleWindow<u8> = SampleWindow::new();
    // 2047 samples in total: never a window, whatever the hop count
    assert!(w.feed(&vec![0u8; 2047]).is_none());
    // the 2048th sample completes the window
    assert!(w.feed(&[1u8]).is_some());
    // 1023 more since that detection: none; the 1024th: one
    assert!(w.feed(&vec![2u8; 1023]).is_none());
    let win = w.feed(&[3u8]).expect("window");
    assert_eq!(win.len(), DETECTION_WINDOW);
    assert_eq!(*win.last().unwrap(), 3);
}
