use krillkounter::block::BlockStats;
use krillkounter::log_prefix::LogPrefix;

fn stats(v: [u64; 17]) -> BlockStats {
    BlockStats {
        read_io: v[0],
        read_merges: v[1],
        read_sectors: v[2],
        read_ticks: v[3],
        write_io: v[4],
        write_merges: v[5],
        write_sectors: v[6],
        write_ticks: v[7],
        in_flight: v[8],
        io_ticks: v[9],
        time_in_queue: v[10],
        discard_io: v[11],
        discard_merges: v[12],
        discard_sectors: v[13],
        discard_ticks: v[14],
        flush_io: v[15],
        flush_ticks: v[16],
    }
}

#[test]
fn parses_a_kernel_stat_line() {
    let line = "    1183       47    92512      402      217      191    27914      611        0     1176     1020        0        0        0        0       48       14\n";
    let s = BlockStats::new(line);
    assert_eq!(
        s,
        stats([1183, 47, 92512, 402, 217, 191, 27914, 611, 0, 1176, 1020, 0, 0, 0, 0, 48, 14])
    );
}

#[test]
fn short_and_long_lines() {
    // Older kernels report fewer fields: the rest stay zero.
    let s = BlockStats::new("1 2 3 4 5 6 7 8 9 10 11");
    assert_eq!(s, stats([1, 2, 3, 4, 5, 6, 7, 8, 9, 10, 11, 0, 0, 0, 0, 0, 0]));
    // Words beyond the seventeenth are ignored.
    let mut words: Vec<String> = (1..=20).map(|n| n.to_string()).collect();
    words[3] = "x".to_string();
    let s = BlockStats::new(&words.join(" "));
    assert_eq!(s, stats([1, 2, 3, 0, 5, 6, 7, 8, 9, 10, 11, 12, 13, 14, 15, 16, 17]));
}

#[test]
fn get_current_stats_keeps_counters_past_the_last_word() {
    let mut s = stats([9; 17]);
    s.get_current_stats("\t1\n2  ");
    assert_eq!(s, stats([1, 2, 9, 9, 9, 9, 9, 9, 9, 9, 9, 9, 9, 9, 9, 9, 9]));
}

#[test]
fn default_is_zero() {
    assert_eq!(BlockStats::default(), stats([0; 17]));
    assert_eq!(BlockStats::new(""), stats([0; 17]));
}

#[test]
fn accumulate_adds_the_difference() {
    let mut stored = stats([10; 17]);
    let prev = stats([1; 17]);
    let cur = stats([4; 17]);
    stored.accumulate_stats(cur, prev);
    assert_eq!(stored, stats([13; 17]));
    // Telescoping: two steps make one.
    let mut a = stats([0; 17]);
    a.accumulate_stats(stats([5; 17]), stats([2; 17]));
    a.accumulate_stats(stats([9; 17]), stats([5; 17]));
    let mut b = stats([0; 17]);
    b.accumulate_stats(stats([9; 17]), stats([2; 17]));
    assert_eq!(a, b);
}

#[test]
fn sub_and_add_assign() {
    let a = stats([7; 17]);
    let b = stats([2; 17]);
    assert_eq!(a - b, stats([5; 17]));
    let mut c = stats([1; 17]);
    c.add_assign(stats([2; 17]));
    assert_eq!(c, stats([3; 17]));
    assert!(a.dominates(&b));
    assert!(!b.dominates(&a));
    assert!(a.can_add(&b));
    assert!(!stats([u64::MAX; 17]).can_add(&stats([1; 17])));
}

#[test]
fn log_prefix_of_block_stats() {
    let s = BlockStats::default();
    assert_eq!(s.log_prefix(), "BlockStats: ");
    assert_eq!(s.log("hello"), "BlockStats: : hello");
}
