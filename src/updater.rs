use vstd::prelude::*;

use rand::Rng;

use crate::data::Data;
use crate::paths::repo_of;

verus! {

/// The first refresh of each updater waits a random whole number of seconds
/// below this, on top of the interval.
pub const SPLAY_SECS: u64 = 30;

/// Relies on rand's `Rng::gen_range` with `thread_rng()`: a value of the
/// half-open range `low..high`, which must not be empty (it panics then).
#[verifier::external_body]
fn random_in(low: u64, high: u64) -> (r: u64)
    requires
        low < high,
    ensures
        low <= r < high,
{
    rand::thread_rng().gen_range(low..high)
}

/// The splay of one updater, in seconds: drawn once, when it is spawned.
pub fn rand_splay_delay() -> (r: u64)
    ensures
        r < SPLAY_SECS,
{
    random_in(0, SPLAY_SECS)
}

/// Seconds until the first refresh: the splay on top of the interval.
pub fn first_refresh_delay(splay: u64, interval: u64) -> (r: u64)
    ensures
        splay + interval <= u64::MAX ==> r == splay + interval,
        splay + interval > u64::MAX ==> r == u64::MAX,
{
    interval.saturating_add(splay)
}

/// Where an updater stands.
#[derive(PartialEq, Eq, Structural, Debug, Clone, Copy)]
pub enum UpdaterState {
    /// The first pass, run at once.
    Populating,
    /// Waiting for the next tick.
    Idle,
    /// A pass started by a tick.
    Refreshing,
}

/// What happens to an updater.
#[derive(PartialEq, Eq, Structural, Debug, Clone, Copy)]
pub enum UpdaterEvent {
    /// The interval elapsed.
    Tick,
    /// The running pass finished, whether it succeeded or not.
    PassDone,
}

/// The next state of an updater. A tick during a pass starts no second
/// pass; a failed pass leaves the schedule as a successful one does.
pub fn next_state(state: UpdaterState, event: UpdaterEvent) -> (r: UpdaterState)
    ensures
        state == UpdaterState::Populating && event == UpdaterEvent::PassDone ==> r == UpdaterState::Idle,
        state == UpdaterState::Idle && event == UpdaterEvent::Tick ==> r == UpdaterState::Refreshing,
        state == UpdaterState::Refreshing && event == UpdaterEvent::PassDone ==> r == UpdaterState::Idle,
        state == UpdaterState::Populating && event == UpdaterEvent::Tick ==> r == state,
        state == UpdaterState::Refreshing && event == UpdaterEvent::Tick ==> r == state,
        state == UpdaterState::Idle && event == UpdaterEvent::PassDone ==> r == state,
{
    match (state, event) {
        (UpdaterState::Populating, UpdaterEvent::PassDone) => UpdaterState::Idle,
        (UpdaterState::Idle, UpdaterEvent::Tick) => UpdaterState::Refreshing,
        (UpdaterState::Refreshing, UpdaterEvent::PassDone) => UpdaterState::Idle,
        (s, _) => s,
    }
}

/// The updater of one repository of one provider.
pub struct RepoUpdater {
    domain: String,
    owner: String,
    name: String,
}

impl RepoUpdater {
    pub closed spec fn spec_domain(&self) -> Seq<char> {
        self.domain@
    }

    pub closed spec fn spec_owner(&self) -> Seq<char> {
        self.owner@
    }

    pub closed spec fn spec_name(&self) -> Seq<char> {
        self.name@
    }

    pub fn new(domain: String, owner: String, name: String) -> (r: RepoUpdater)
        ensures
            r.spec_domain() == domain@,
            r.spec_owner() == owner@,
            r.spec_name() == name@,
    {
        RepoUpdater { domain, owner, name }
    }

    pub fn domain(&self) -> (r: &str)
        ensures
            r@ == self.spec_domain(),
    {
        self.domain.as_str()
    }

    pub fn owner(&self) -> (r: &str)
        ensures
            r@ == self.spec_owner(),
    {
        self.owner.as_str()
    }

    pub fn name(&self) -> (r: &str)
        ensures
            r@ == self.spec_name(),
    {
        self.name.as_str()
    }

    /// The refresh interval of the repository, in seconds.
    pub fn interval(&self, data: &Data) -> (r: Option<u64>)
        ensures
            match repo_of(data@, self.spec_domain(), self.spec_owner(), self.spec_name()) {
                Some(v) => r == Some(v.interval),
                None => r is None,
            },
    {
        match data.provider(self.domain.as_str()) {
            Some(p) => match p.repo(self.owner.as_str(), self.name.as_str()) {
                Some(repo) => Some(repo.interval()),
                None => None,
            },
            None => None,
        }
    }

    /// `domain=..., repo=owner/name`, for log lines.
    pub fn describe(&self) -> (r: String)
        ensures
            r@ == "domain="@ + self.spec_domain() + ", repo="@ + self.spec_owner() + "/"@ + self.spec_name(),
    {
        let mut r = String::from_str("domain=");
        r.append(self.domain.as_str());
        r.append(", repo=");
        r.append(self.owner.as_str());
        r.append("/");
        r.append(self.name.as_str());
        r
    }
}

} // verus!
