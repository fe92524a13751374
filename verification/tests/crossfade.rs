use dispersion_equalizer::crossfade::{Crossfade, FadeProgress};

fn frac(num: u32, den: u32) -> FadeProgress {
    FadeProgress { num, den }
}

#[test]
fn idle_crossfade_gives_full_weight() {
    let mut fade = Crossfade::default();
    assert!(!fade.is_active());
    for _ in 0..5 {
        assert_eq!(fade.next(), frac(1, 1));
        assert!(!fade.is_active());
    }
}

#[test]
fn fade_runs_its_length_then_stops() {
    let mut fade = Crossfade::new();
    fade.start(4, true);
    assert!(fade.is_active());
    assert_eq!(fade.next(), frac(0, 4));
    assert_eq!(fade.next(), frac(1, 4));
    assert_eq!(fade.next(), frac(2, 4));
    assert!(fade.is_active());
    assert_eq!(fade.next(), frac(3, 4));
    assert!(!fade.is_active());
    assert_eq!(fade.next(), frac(1, 1));
}

#[test]
fn zero_length_fade_lasts_one_sample() {
    let mut fade = Crossfade::new();
    fade.start(0, true);
    assert!(fade.is_active());
    assert_eq!(fade.next(), frac(0, 1));
    assert!(!fade.is_active());
}

#[test]
fn start_without_fade_time_stays_idle() {
    let mut fade = Crossfade::new();
    fade.start(480, false);
    assert!(!fade.is_active());
    assert_eq!(fade.next(), frac(1, 1));
}

#[test]
fn reset_stops_a_fade() {
    let mut fade = Crossfade::new();
    fade.start(100, true);
    fade.next();
    fade.reset();
    assert!(!fade.is_active());
    assert_eq!(fade.next(), frac(1, 1));
    fade.start(2, true);
    assert_eq!(fade.next(), frac(0, 2));
}

#[test]
fn progress_never_decreases() {
    let mut fade = Crossfade::new();
    fade.start(7, true);
    let mut last = fade.next();
    for _ in 0..20 {
        let p = fade.next();
        assert!(p.num <= p.den);
        assert!((last.num as u64) * (p.den as u64) <= (p.num as u64) * (last.den as u64));
        last = p;
    }
}

use dispersion_equalizer::engine::ChainFade;

#[test]
fn first_install_never_fades() {
    let mut fade = ChainFade::new();
    assert!(!fade.install(480, true, false));
    assert_eq!(fade.frame(), None);
}

#[test]
fn later_install_fades_for_its_length() {
    let mut fade = ChainFade::new();
    assert!(!fade.install(3, true, false));
    assert!(fade.install(3, true, true));
    assert_eq!(fade.frame(), Some(frac(0, 3)));
    assert_eq!(fade.frame(), Some(frac(1, 3)));
    assert_eq!(fade.frame(), Some(frac(2, 3)));
    assert_eq!(fade.frame(), None);
    assert_eq!(fade.frame(), None);
}

#[test]
fn install_without_fade_time_switches_at_once() {
    let mut fade = ChainFade::new();
    fade.install(3, true, false);
    assert!(!fade.install(3, false, true));
    assert_eq!(fade.frame(), None);
}

#[test]
fn reset_drops_the_old_chain() {
    let mut fade = ChainFade::new();
    fade.install(10, true, true);
    assert_eq!(fade.frame(), Some(frac(0, 10)));
    fade.reset();
    assert_eq!(fade.frame(), None);
}
