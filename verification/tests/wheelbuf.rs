use wheelbuf::WheelBuf;

fn collect_string(wheel: &WheelBuf<char>) -> String {
    let mut s = String::new();
    let mut it = wheel.iter();
    while let Some(c) = it.next() {
        s.push(*c);
    }
    s
}

#[test]
fn basics() {
    let buf = vec!['x'; 8];
    let mut wheel = WheelBuf::new(buf);

    wheel.push('H');
    wheel.push('e');
    wheel.push('l');
    assert_eq!(wheel.len(), 3);
    assert_eq!(*wheel.iter().next().unwrap(), 'H');

    wheel.push('l');
    wheel.push('o');
    wheel.push(' ');
    wheel.push('W');
    wheel.push('o');
    wheel.push('r');
    wheel.push('l');
    wheel.push('d');
    assert_eq!(wheel.len(), 8);

    let s: String = collect_string(&wheel);
    assert_eq!(s.as_str(), "lo World");
}

#[test]
fn nth() {
    let buf = vec!['x'; 8];
    let mut wheel = WheelBuf::new(buf);

    wheel.push('H');
    wheel.push('e');
    wheel.push('l');

    assert_eq!(*wheel.iter().nth(0).unwrap(), 'H');
    assert_eq!(*wheel.iter().nth(1).unwrap(), 'e');
    assert_eq!(*wheel.iter().nth(2).unwrap(), 'l');
    assert!(wheel.iter().nth(3).is_none());
}

#[test]
fn write() {
    let buf = vec!['x'; 8];
    let mut wheel = WheelBuf::new(buf);

    wheel.write_str(&format!("Hello, World! {}", 123));
    let s: String = collect_string(&wheel);
    assert_eq!(s.as_str(), "rld! 123");
}

#[test]
fn using_vec() {
    let buf = vec!['x', 'x', 'x', 'x', 'x', 'x', 'x', 'x'];
    let mut wheel = WheelBuf::new(buf);

    wheel.push('H');
    wheel.push('e');
    wheel.push('l');
    assert_eq!(wheel.len(), 3);
    assert_eq!(*wheel.iter().next().unwrap(), 'H');

    wheel.push('l');
    wheel.push('o');
    wheel.push(' ');
    wheel.push('W');
    wheel.push('o');
    wheel.push('r');
    wheel.push('l');
    wheel.push('d');
    assert_eq!(wheel.len(), 8);

    let s: String = collect_string(&wheel);
    assert_eq!(s.as_str(), "lo World");
}

#[test]
fn length_and_total_track_pushes() {
    let capacity: usize = 4;
    let mut wheel = WheelBuf::new(vec![0u64; 4]);
    assert_eq!(wheel.len(), 0);
    assert_eq!(wheel.total(), 0);
    assert_eq!(wheel.capacity(), 4);
    let mut m: usize = 0;
    while m < 10 {
        wheel.push(m as u64);
        m += 1;
        assert_eq!(wheel.total(), m);
        assert_eq!(wheel.len(), if m < capacity { m } else { capacity });
    }
}

#[test]
fn order_preserved_and_oldest_overwritten() {
    let mut wheel = WheelBuf::new(vec![0u64; 4]);
    wheel.push(1);
    wheel.push(2);
    wheel.push(3);
    wheel.push(4);
    wheel.push(5);
    let mut seen: Vec<u64> = Vec::new();
    let mut it = wheel.iter();
    while let Some(v) = it.next() {
        seen.push(*v);
    }
    assert_eq!(seen, vec![2, 3, 4, 5]);
}

#[test]
fn skip_ahead_matches_single_steps() {
    let mut wheel = WheelBuf::new(vec!['x'; 6]);
    wheel.push('a');
    wheel.push('b');
    wheel.push('c');
    wheel.push('d');
    wheel.push('e');
    let mut n: usize = 0;
    while n <= wheel.len() {
        let mut bulk = wheel.iter();
        let by_bulk = bulk.nth(n).copied();
        let mut steps = wheel.iter();
        let mut i: usize = 0;
        while i < n {
            steps.next();
            i += 1;
        }
        let by_steps = steps.next().copied();
        assert_eq!(by_bulk, by_steps);
        n += 1;
    }
}

#[test]
fn exhaustion_is_idempotent() {
    let mut wheel = WheelBuf::new(vec![0u64; 3]);
    wheel.push(7);
    wheel.push(8);
    let mut it = wheel.iter();
    assert_eq!(*it.next().unwrap(), 7);
    assert_eq!(*it.next().unwrap(), 8);
    assert!(it.next().is_none());
    assert!(it.next().is_none());
    assert!(it.next().is_none());
    assert!(it.nth(5).is_none());
}

#[test]
fn skip_past_end_is_clamped() {
    let mut wheel = WheelBuf::new(vec![0u64; 3]);
    wheel.push(1);
    wheel.push(2);
    let mut it = wheel.iter();
    assert!(it.nth(100).is_none());
    assert!(it.next().is_none());
}

#[test]
fn scenario_capacity_three() {
    let mut wheel = WheelBuf::new(vec!['x'; 3]);
    wheel.push('a');
    wheel.push('b');
    wheel.push('c');
    wheel.push('d');
    let s: String = collect_string(&wheel);
    assert_eq!(s.as_str(), "bcd");
    assert_eq!(wheel.total(), 4);
}

#[test]
fn scenario_partial_fill() {
    let mut wheel = WheelBuf::new(vec!['x'; 8]);
    wheel.push('H');
    wheel.push('e');
    wheel.push('l');
    assert_eq!(wheel.len(), 3);
    let s: String = collect_string(&wheel);
    assert_eq!(s.as_str(), "Hel");
    assert_eq!(*wheel.iter().nth(1).unwrap(), 'e');
}

#[test]
fn scenario_push_eleven_chars() {
    let mut wheel = WheelBuf::new(vec!['x'; 8]);
    for c in "Hello World".chars() {
        wheel.push(c);
    }
    assert_eq!(wheel.len(), 8);
    let s: String = collect_string(&wheel);
    assert_eq!(s.as_str(), "lo World");
}

#[test]
fn scenario_zero_capacity() {
    let wheel: WheelBuf<char> = WheelBuf::new(Vec::new());
    assert_eq!(wheel.capacity(), 0);
    assert_eq!(wheel.len(), 0);
    assert!(wheel.is_empty());
    assert_eq!(wheel.total(), 0);
    assert!(wheel.iter().next().is_none());
}

#[test]
fn emptiness_tracks_first_push() {
    let mut wheel = WheelBuf::new(vec![0u64; 2]);
    assert!(wheel.is_empty());
    wheel.push(1);
    assert!(!wheel.is_empty());
    wheel.push(2);
    wheel.push(3);
    assert!(!wheel.is_empty());
}

#[test]
fn appending_empty_text_changes_nothing() {
    let mut wheel = WheelBuf::new(vec!['x'; 4]);
    wheel.push('a');
    wheel.write_str("");
    assert_eq!(wheel.len(), 1);
    assert_eq!(wheel.total(), 1);
    let s: String = collect_string(&wheel);
    assert_eq!(s.as_str(), "a");
}
