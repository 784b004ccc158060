use pinggraph::stats::{calculate_statistics, vec_max, vec_min, Statistics};

// Round-trip times are in hundredths of a millisecond throughout.

#[test]
fn five_successes_scenario() {
    // 10, 20, 30, 15, 25 ms: min 10.00, max 30.00, mean 20.00,
    // standard deviation 7.07, no loss.
    let times = vec![1000u64, 2000, 3000, 1500, 2500];
    let s = calculate_statistics(&times, 5);
    assert_eq!(s.min_hundredths, Some(1000));
    assert_eq!(s.max_hundredths, Some(3000));
    assert_eq!(s.mean_hundredths, Some(2000));
    assert_eq!(s.std_dev_hundredths, Some(707));
    assert_eq!(s.packets_sent, 5);
    assert_eq!(s.packets_received, 5);
    assert_eq!(s.packets_lost, 0);
    assert_eq!(s.loss_centipercent, 0);
}

#[test]
fn one_of_three_scenario() {
    // timeout, 50 ms, timeout: one received, two lost, 66.67 % loss,
    // min = max = mean = 50.00, deviation 0.
    let times = vec![5000u64];
    let s = calculate_statistics(&times, 3);
    assert_eq!(s.packets_sent, 3);
    assert_eq!(s.packets_received, 1);
    assert_eq!(s.packets_lost, 2);
    assert_eq!(s.loss_centipercent, 6667);
    assert_eq!(s.min_hundredths, Some(5000));
    assert_eq!(s.max_hundredths, Some(5000));
    assert_eq!(s.mean_hundredths, Some(5000));
    assert_eq!(s.std_dev_hundredths, Some(0));
}

#[test]
fn all_fail_yields_full_loss_and_absent_figures() {
    let times: Vec<u64> = vec![];
    let s = calculate_statistics(&times, 4);
    assert_eq!(s.loss_centipercent, 10000);
    assert_eq!(s.min_hundredths, None);
    assert_eq!(s.max_hundredths, None);
    assert_eq!(s.mean_hundredths, None);
    assert_eq!(s.std_dev_hundredths, None);
    assert_eq!(s.packets_sent, 4);
    assert_eq!(s.packets_received, 0);
    assert_eq!(s.packets_lost, 4);
}

#[test]
fn all_succeed_yields_zero_loss() {
    let times = vec![100u64, 200];
    let s = calculate_statistics(&times, 2);
    assert_eq!(s.loss_centipercent, 0);
    assert_eq!(s.packets_lost, 0);
}

#[test]
fn sent_is_received_plus_lost() {
    for (times, total) in [
        (vec![], 1u32),
        (vec![5000u64], 3),
        (vec![1000, 2000, 3000], 7),
    ] {
        let s = calculate_statistics(&times, total);
        assert_eq!(s.packets_sent, s.packets_received + s.packets_lost);
        assert_eq!(s.packets_sent as usize, times.len() + s.packets_lost as usize);
    }
}

#[test]
fn statistics_are_deterministic() {
    let times = vec![1234u64, 999, 100_000, 77];
    let a: Statistics = calculate_statistics(&times, 9);
    let b: Statistics = calculate_statistics(&times, 9);
    assert_eq!(a, b);
}

#[test]
fn mean_rounds_half_up() {
    // 1 and 2 hundredths: mean 1.5 rounds to 2.
    let times = vec![1u64, 2];
    let s = calculate_statistics(&times, 2);
    assert_eq!(s.mean_hundredths, Some(2));
}

#[test]
fn loss_percent_rounds() {
    // 1 of 3 lost: 33.333... % rounds to 33.33 %.
    let times = vec![100u64, 200];
    let s = calculate_statistics(&times, 3);
    assert_eq!(s.loss_centipercent, 3333);
}

#[test]
fn extremes_of_vector() {
    let times = vec![700u64, 70, 7000, 77];
    assert_eq!(vec_min(&times), 70);
    assert_eq!(vec_max(&times), 7000);
}
