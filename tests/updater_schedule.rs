use artifetch::updater::{first_refresh_delay, next_state, rand_splay_delay, RepoUpdater, UpdaterEvent, UpdaterState, SPLAY_SECS};

#[test]
fn splay_delays_stay_below_the_bound() {
    for _ in 0..1000 {
        let d = rand_splay_delay();
        assert!(d < SPLAY_SECS);
    }
    assert_eq!(SPLAY_SECS, 30);
}

#[test]
fn first_refresh_waits_splay_and_interval() {
    assert_eq!(first_refresh_delay(7, 30), 37);
    assert_eq!(first_refresh_delay(29, u64::MAX), u64::MAX);
}

#[test]
fn updater_state_machine() {
    assert_eq!(next_state(UpdaterState::Populating, UpdaterEvent::PassDone), UpdaterState::Idle);
    assert_eq!(next_state(UpdaterState::Idle, UpdaterEvent::Tick), UpdaterState::Refreshing);
    assert_eq!(next_state(UpdaterState::Refreshing, UpdaterEvent::PassDone), UpdaterState::Idle);
    assert_eq!(next_state(UpdaterState::Refreshing, UpdaterEvent::Tick), UpdaterState::Refreshing);
}

#[test]
fn updater_describes_its_repo() {
    let u = RepoUpdater::new("github.com".to_string(), "fnichol".to_string(), "names".to_string());
    assert_eq!(u.describe(), "domain=github.com, repo=fnichol/names");
    let data = artifetch::data::Data::new(artifetch::Registry::new());
    assert!(u.interval(&data).is_none());
}
