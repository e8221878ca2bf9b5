use organya::frame::{
    accumulate, accumulate_all, left_sample, pack_frame, right_sample, saturating_sum,
};

#[test]
fn frame_holds_left_low_and_right_high() {
    assert_eq!(pack_frame(1, 2), 0x0002_0001);
    assert_eq!(pack_frame(-1, 0), 0x0000_ffff);
    assert_eq!(pack_frame(0, -1), 0xffff_0000);
    assert_eq!(pack_frame(-32768, 32767), 0x7fff_8000);
}

#[test]
fn frame_gives_its_samples_back() {
    for (left, right) in [(0i16, 0i16), (1, -1), (-32768, 32767), (12345, -12345), (32767, -32768)]
    {
        let frame = pack_frame(left, right);
        assert_eq!(left_sample(frame), left);
        assert_eq!(right_sample(frame), right);
    }
}

#[test]
fn silence_is_zero() {
    assert_eq!(pack_frame(0, 0), 0);
    assert_eq!(left_sample(0), 0);
    assert_eq!(right_sample(0), 0);
}

#[test]
fn samples_of_a_biased_word() {
    assert_eq!(left_sample(0x8080), -32640);
    assert_eq!(right_sample(0x8080), 0);
}

#[test]
fn sum_saturates_at_both_ends() {
    assert_eq!(saturating_sum(32767, 1), 32767);
    assert_eq!(saturating_sum(20000, 20000), 32767);
    assert_eq!(saturating_sum(-32768, -1), -32768);
    assert_eq!(saturating_sum(-20000, -20000), -32768);
    assert_eq!(saturating_sum(-20000, 20000), 0);
    assert_eq!(saturating_sum(100, 23), 123);
}

#[test]
fn accumulate_adds_each_channel() {
    let frame = accumulate(pack_frame(100, -100), 23, -23);
    assert_eq!(left_sample(frame), 123);
    assert_eq!(right_sample(frame), -123);
}

#[test]
fn loud_voices_clip_and_do_not_wrap() {
    let amps = vec![(20000i16, -20000i16), (20000, -20000), (20000, -20000)];
    let frame = accumulate_all(0, &amps);
    assert_eq!(left_sample(frame), 32767);
    assert_eq!(right_sample(frame), -32768);
}

#[test]
fn channels_clip_independently() {
    let frame = accumulate(pack_frame(30000, 0), 10000, 10000);
    assert_eq!(left_sample(frame), 32767);
    assert_eq!(right_sample(frame), 10000);
}

#[test]
fn clipped_sum_keeps_its_sign_for_any_count_of_voices() {
    for count in 1..40usize {
        let up = vec![(3000i16, 3000i16); count];
        let frame = accumulate_all(0, &up);
        let want = std::cmp::min(32767, 3000 * count as i32) as i16;
        assert_eq!(left_sample(frame), want);
        assert_eq!(right_sample(frame), want);
        let down = vec![(-3000i16, -3000i16); count];
        let frame = accumulate_all(0, &down);
        let want = std::cmp::max(-32768, -3000 * count as i32) as i16;
        assert_eq!(left_sample(frame), want);
        assert_eq!(right_sample(frame), want);
    }
}

#[test]
fn accumulate_all_of_nothing_keeps_the_frame() {
    assert_eq!(accumulate_all(0x1234_5678, &Vec::new()), 0x1234_5678);
}

#[test]
fn accumulate_all_goes_in_order() {
    // up to the top, then down: the clipped part is lost
    let amps = vec![(30000i16, 0i16), (30000, 0), (-30000, 0)];
    assert_eq!(left_sample(accumulate_all(0, &amps)), 2767);
}
