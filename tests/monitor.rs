use repomons::config::{Branch, ConfigError, MonitorConfig, Remote};
use repomons::event::{Category, Event};
use repomons::monitor::{startup_delay, Action, Input, Monitor, MonitorError, Phase};

fn remote(name: &str) -> Remote {
    Remote { name: name.to_string(), url: format!("https://example.com/{}.git", name) }
}

fn config(repo: &str, branch: &str, interval_ms: u64, compared: &[&str]) -> MonitorConfig {
    let mut c = MonitorConfig::new("/srv/repos");
    c.set_repo_name(repo.to_string());
    c.set_branch(Branch {
        name: branch.to_string(),
        interval_ms,
        remotes: compared.iter().map(|s| s.to_string()).collect(),
    });
    c.set_remotes(vec![remote("origin"), remote("upstream")]);
    c
}

fn advertised(branches: &[&str]) -> Input {
    Input::Advertised(branches.iter().map(|b| format!("refs/heads/{}", b)).collect())
}

/// Runs a monitor from its start to the first comparison.
fn start_and_fetch(m: &mut Monitor, refs: &[&str], n: usize) {
    assert!(matches!(m.step(Input::Start), Action::Open));
    match m.step(Input::Opened) {
        Action::Sleep(ms) => assert!(ms < 1000),
        other => panic!("unexpected {:?}", other),
    }
    let mut a = m.step(Input::Slept);
    for _ in 0..n {
        assert!(matches!(a, Action::ListRefs(_)));
        assert!(matches!(m.step(advertised(refs)), Action::Fetch(_)));
        a = m.step(Input::Fetched);
    }
    assert!(matches!(a, Action::ResolveLocal(ref b) if b == "main"));
}

fn publish_counts(m: &mut Monitor, local: &[u8], counts: &[(u64, u64)]) -> Event {
    let mut a = m.step(Input::Resolved(local.to_vec()));
    for (i, (ahead, behind)) in counts.iter().enumerate() {
        match &a {
            Action::Compare(l, _) => assert_eq!(l.as_slice(), local),
            other => panic!("step {}: unexpected {:?}", i, other),
        }
        a = m.step(Input::Compared(*ahead, *behind));
    }
    match a {
        Action::Publish(e) => e,
        other => panic!("unexpected {:?}", other),
    }
}

fn statuses(e: &Event) -> Vec<(String, Category)> {
    e.statuses().iter().map(|s| (s.remote.clone(), s.category)).collect()
}

#[test]
fn one_event_per_tick_with_every_remote() {
    let mut m = Monitor::new(&config("R", "main", 5000, &["origin", "upstream"])).unwrap();
    start_and_fetch(&mut m, &["main", "dev"], 2);
    let e = publish_counts(&mut m, &[0xab; 20], &[(0, 0), (3, 0)]);
    assert_eq!(e.repo(), "R");
    assert_eq!(e.branch(), "main");
    assert_eq!(
        statuses(&e),
        vec![("origin".to_string(), Category::UpToDate), ("upstream".to_string(), Category::Ahead(3))]
    );
    assert!(matches!(m.step(Input::Published), Action::Sleep(5000)));
    assert!(matches!(m.step(Input::Slept), Action::ListRefs(ref r) if r == "origin"));
}

#[test]
fn compares_use_remote_tracking_refs_and_one_local_tip() {
    let mut m = Monitor::new(&config("R", "main", 5000, &["origin", "upstream"])).unwrap();
    start_and_fetch(&mut m, &["main"], 2);
    let local = vec![7u8; 20];
    match m.step(Input::Resolved(local.clone())) {
        Action::Compare(l, r) => {
            assert_eq!(l, local);
            assert_eq!(r, "origin/main");
        }
        other => panic!("unexpected {:?}", other),
    }
    match m.step(Input::Compared(0, 1)) {
        Action::Compare(l, r) => {
            assert_eq!(l, local);
            assert_eq!(r, "upstream/main");
        }
        other => panic!("unexpected {:?}", other),
    }
}

#[test]
fn diverged_history_reports_both_counts() {
    let mut m = Monitor::new(&config("R", "main", 5000, &["origin"])).unwrap();
    start_and_fetch(&mut m, &["main"], 1);
    let e = publish_counts(&mut m, &[1; 20], &[(2, 3)]);
    assert_eq!(statuses(&e), vec![("origin".to_string(), Category::Diverged(2, 3))]);
    assert_eq!(Category::Diverged(2, 3).counts(), (2, 3));
}

#[test]
fn quiet_polls_are_up_to_date_every_time() {
    let mut m = Monitor::new(&config("R", "main", 1000, &["origin", "upstream"])).unwrap();
    start_and_fetch(&mut m, &["main"], 2);
    let first = publish_counts(&mut m, &[5; 20], &[(0, 0), (0, 0)]);
    assert!(matches!(m.step(Input::Published), Action::Sleep(1000)));
    let mut a = m.step(Input::Slept);
    for _ in 0..2 {
        assert!(matches!(a, Action::ListRefs(_)));
        assert!(matches!(m.step(advertised(&["main"])), Action::Fetch(_)));
        a = m.step(Input::Fetched);
    }
    assert!(matches!(a, Action::ResolveLocal(_)));
    let second = publish_counts(&mut m, &[5; 20], &[(0, 0), (0, 0)]);
    let up = vec![("origin".to_string(), Category::UpToDate), ("upstream".to_string(), Category::UpToDate)];
    assert_eq!(statuses(&first), up);
    assert_eq!(statuses(&second), up);
    assert_ne!(first.id(), second.id());
}

#[test]
fn missing_branch_stops_only_its_monitor() {
    let mut main = Monitor::new(&config("R", "main", 5000, &["origin"])).unwrap();
    let mut dev = Monitor::new(&config("R", "dev", 5000, &["origin"])).unwrap();
    for m in [&mut main, &mut dev] {
        m.step(Input::Start);
        m.step(Input::Opened);
        assert!(matches!(m.step(Input::Slept), Action::ListRefs(_)));
    }
    let refs = &["dev", "feature"];
    assert!(matches!(main.step(advertised(refs)), Action::Stop(MonitorError::InvalidBranch)));
    assert!(main.is_terminated());
    assert!(matches!(dev.step(advertised(refs)), Action::Fetch(ref r) if r == "origin"));
    assert_eq!(dev.phase(), Phase::Fetching(0));
    assert!(matches!(main.step(Input::Slept), Action::Stop(MonitorError::AlreadyTerminated)));
}

#[test]
fn failures_are_fatal_to_the_monitor() {
    let mut m = Monitor::new(&config("R", "main", 5000, &["origin"])).unwrap();
    m.step(Input::Start);
    assert!(matches!(m.step(Input::OpenFailed), Action::Stop(MonitorError::OpenFailed)));
    let mut m = Monitor::new(&config("R", "main", 5000, &["origin"])).unwrap();
    start_and_fetch(&mut m, &["main"], 1);
    assert!(matches!(m.step(Input::ResolveFailed), Action::Stop(MonitorError::ResolveFailed)));
    let mut m = Monitor::new(&config("R", "main", 5000, &["origin"])).unwrap();
    m.step(Input::Start);
    assert!(matches!(m.step(Input::Fetched), Action::Stop(MonitorError::UnexpectedInput)));
}

#[test]
fn startup_jitter_stays_within_a_fifth_of_the_interval() {
    let mut max = 0;
    for _ in 0..10_000 {
        let d = startup_delay(5000);
        assert!(d < 1000);
        max = max.max(d);
    }
    assert!(max > 0);
    assert_eq!(startup_delay(4), 0);
    assert_eq!(startup_delay(0), 0);
    for _ in 0..1000 {
        assert!(startup_delay(5) < 1);
        assert!(startup_delay(10) < 2);
    }
}

#[test]
fn invalid_configurations_are_refused() {
    assert_eq!(
        Monitor::new(&config("R", "main", 0, &["origin"])).err(),
        Some(ConfigError::ZeroInterval)
    );
    assert_eq!(Monitor::new(&config("R", "main", 10, &[])).err(), Some(ConfigError::NoRemotes));
    assert_eq!(
        Monitor::new(&config("R", "main", 10, &["origin", "fork"])).err(),
        Some(ConfigError::UnknownRemote)
    );
}
