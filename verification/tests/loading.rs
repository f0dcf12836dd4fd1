use tower_defense::loading::{completion, Loading, LoadingPhase, LoadingStep, Progress, SPLASH_TIME};

fn progress(num_finished: usize, num_assets: usize) -> Progress {
    Progress { num_finished, num_assets, complete: num_finished == num_assets }
}

#[test]
fn loading_goes_through_its_phases() {
    let mut loading = Loading::new();
    assert_eq!(loading.phase, LoadingPhase::Splash);
    assert_eq!(loading.update(progress(0, 2), 10), LoadingStep::Idle);
    assert_eq!(loading.update(progress(1, 2), 20), LoadingStep::Idle);
    assert_eq!(loading.update(progress(2, 2), 30), LoadingStep::ShowSplash);
    assert_eq!(loading.phase, LoadingPhase::Assets);
    assert_eq!(loading.counter_end, Some(30 + SPLASH_TIME));

    assert_eq!(loading.update(progress(0, 3), 40), LoadingStep::Report { hundredths: 0 });
    assert_eq!(loading.update(progress(0, 3), 50), LoadingStep::Idle);
    assert_eq!(loading.update(progress(1, 3), 60), LoadingStep::Report { hundredths: 3333 });
    assert_eq!(loading.update(progress(1, 3), 70), LoadingStep::Idle);
    assert_eq!(loading.update(progress(2, 3), 80), LoadingStep::Report { hundredths: 6666 });
    assert_eq!(loading.items_done_last, Some(2));
    assert_eq!(loading.update(progress(3, 3), 90), LoadingStep::Loaded);
    assert_eq!(loading.phase, LoadingPhase::Wait);

    assert_eq!(loading.update(progress(3, 3), 100), LoadingStep::Idle);
    assert_eq!(loading.update(progress(3, 3), 30 + SPLASH_TIME), LoadingStep::Idle);
    assert_eq!(loading.update(progress(3, 3), 31 + SPLASH_TIME), LoadingStep::Start);
    assert_eq!(loading.phase, LoadingPhase::Wait);
}

#[test]
fn the_splash_time_does_not_wrap() {
    let mut loading = Loading::new();
    assert_eq!(loading.update(progress(0, 0), u64::MAX - 5), LoadingStep::ShowSplash);
    assert_eq!(loading.counter_end, Some(u64::MAX));
    assert_eq!(loading.update(progress(0, 0), u64::MAX), LoadingStep::Loaded);
    assert_eq!(loading.update(progress(0, 0), u64::MAX), LoadingStep::Idle);
}

#[test]
fn the_share_of_what_is_read() {
    assert_eq!(completion(0, 7), 0);
    assert_eq!(completion(1, 7), 1428);
    assert_eq!(completion(7, 7), 10_000);
    assert_eq!(completion(9, 7), 10_000);
    assert_eq!(completion(0, 0), 10_000);
    assert_eq!(completion(usize::MAX - 1, usize::MAX), 9999);
}
