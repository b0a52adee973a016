use cratetorrent::counter::Counter;
use cratetorrent::torrent::stats::ThroughputStats;

/// The weighed running average of a counter's rounds.
struct Rate {
    avg: f64,
}

impl Rate {
    fn finish_round(&mut self, c: &mut Counter) {
        self.avg = self.avg * 4.0 / 5.0 + c.round() as f64 / 5.0;
        c.reset(self.avg.round() as u64);
    }
}

#[test]
fn test_counter() {
    let mut c = Counter::default();
    let mut rate = Rate { avg: 0.0 };

    assert_eq!(c.avg(), 0);
    assert_eq!(c.peak(), 0);
    assert_eq!(c.round(), 0);
    assert_eq!(c.total(), 0);

    c.add(5);
    assert_eq!(c.round(), 5);
    assert_eq!(c.total(), 5);

    rate.finish_round(&mut c);
    // 4 * 0 / 5 + 5 / 5 = 1
    assert_eq!(c.avg(), 1);
    assert_eq!(c.peak(), 1);
    assert_eq!(c.round(), 0);
    assert_eq!(c.total(), 5);

    c.add(10);
    assert_eq!(c.round(), 10);
    assert_eq!(c.total(), 15);

    rate.finish_round(&mut c);
    // 4 * 1 / 5 + 10 / 5 = 0.8 + 2 = 2.8 ~ 3
    assert_eq!(c.avg(), 3);
    assert_eq!(c.peak(), 3);
    assert_eq!(c.round(), 0);
    assert_eq!(c.total(), 15);

    c.add(30);
    assert_eq!(c.round(), 30);
    assert_eq!(c.total(), 45);

    rate.finish_round(&mut c);
    // 4 * 2.8 / 5 + 30 / 5 = 2.24 + 6 = 8.24 ~ 8
    assert_eq!(c.avg(), 8);
    assert_eq!(c.peak(), 8);
    assert_eq!(c.round(), 0);
    assert_eq!(c.total(), 45);

    c.add(1);
    assert_eq!(c.round(), 1);
    assert_eq!(c.total(), 46);

    rate.finish_round(&mut c);
    // 4 * 8.24 / 5 + 1 / 5 = 6.592 + 0.2 = 6.792 ~ 7
    assert_eq!(c.avg(), 7);
    assert_eq!(c.peak(), 8);
    assert_eq!(c.round(), 0);
    assert_eq!(c.total(), 46);
}

#[test]
fn throughput_stats_are_those_of_the_counter() {
    let mut c = Counter::default();
    c.add(7);
    c.reset(9);
    c.reset(3);
    c.add(1);
    let stats = ThroughputStats::from(&c);
    assert_eq!(stats.total, 8);
    assert_eq!(stats.rate, 3);
    assert_eq!(stats.peak, 9);
}
