//! The watcher: it keeps the volume alive while phones come and go.
//!
//! The listener and the mount point stay; sessions are attached and detached
//! underneath. Every round ends with the state that is published.

use vstd::prelude::*;

use crate::text::owned;

verus! {

/// The state that is published.
#[derive(Debug, Clone, Copy, PartialEq, Eq, Structural)]
pub enum Phase {
    /// No phone is attached.
    Waiting,
    /// A phone is attached.
    Attached,
    /// The phone has just gone.
    Gone,
    /// The watcher has stopped.
    Stopped,
}

/// The name of a phase.
pub open spec fn phase_text(p: Phase) -> Seq<char> {
    match p {
        Phase::Waiting => "waiting"@,
        Phase::Attached => "attached"@,
        Phase::Gone => "gone"@,
        Phase::Stopped => "stopped"@,
    }
}

impl Phase {
    /// The name of the phase.
    pub fn name(self) -> (r: String)
        ensures
            r@ == phase_text(self),
    {
        match self {
            Phase::Waiting => owned("waiting"),
            Phase::Attached => owned("attached"),
            Phase::Gone => owned("gone"),
            Phase::Stopped => owned("stopped"),
        }
    }
}

/// What comes next in a round.
#[derive(Debug)]
pub enum WatchStep {
    /// Try to connect to a phone.
    Connect,
    /// See whether the session still answers.
    Probe,
    /// Attach the session of the phone with this model.
    Attach(String),
    /// See whether the mount at this path is alive.
    CheckMount(String),
    /// Clear what is left of older mounts, and mount.
    Mount,
    /// Wait for a minute, then publish.
    BackOff(Phase),
    /// Detach the session, then publish.
    Detach(Phase),
    /// Publish the state: the round is over.
    Publish(Phase),
}

/// The view of a [`WatchStep`].
pub enum WatchPlan {
    Connect,
    Probe,
    Attach(Seq<char>),
    CheckMount(Seq<char>),
    Mount,
    BackOff(Phase),
    Detach(Phase),
    Publish(Phase),
}

impl View for WatchStep {
    type V = WatchPlan;

    open spec fn view(&self) -> WatchPlan {
        match self {
            WatchStep::Connect => WatchPlan::Connect,
            WatchStep::Probe => WatchPlan::Probe,
            WatchStep::Attach(m) => WatchPlan::Attach(m@),
            WatchStep::CheckMount(p) => WatchPlan::CheckMount(p@),
            WatchStep::Mount => WatchPlan::Mount,
            WatchStep::BackOff(p) => WatchPlan::BackOff(*p),
            WatchStep::Detach(p) => WatchPlan::Detach(*p),
            WatchStep::Publish(p) => WatchPlan::Publish(*p),
        }
    }
}

/// What the watcher remembers.
#[derive(Debug)]
pub struct Watch {
    mounted: bool,
    used: String,
    model: String,
    rx: u64,
    tx: u64,
}

/// The view of a [`Watch`].
#[verifier::ext_equal]
pub struct WatchView {
    /// Whether the volume was mounted.
    pub mounted: bool,
    /// Where it was mounted.
    pub used: Seq<char>,
    /// The model of the last phone.
    pub model: Seq<char>,
    /// Bytes pulled when the state was last published.
    pub rx: u64,
    /// Bytes pushed when the state was last published.
    pub tx: u64,
}

impl View for Watch {
    type V = WatchView;

    closed spec fn view(&self) -> WatchView {
        WatchView {
            mounted: self.mounted,
            used: self.used@,
            model: self.model@,
            rx: self.rx,
            tx: self.tx,
        }
    }
}

/// How a round goes on once a session was attached, or was not.
pub open spec fn watch_attached(v: WatchView, model: Seq<char>, ok: bool) -> (WatchView, WatchPlan) {
    if !ok {
        (v, WatchPlan::Publish(Phase::Waiting))
    } else {
        (
            WatchView { model, ..v },
            if v.mounted {
                WatchPlan::CheckMount(v.used)
            } else {
                WatchPlan::Mount
            },
        )
    }
}

/// How a round goes on after a mount, or its failure.
pub open spec fn watch_mounted(v: WatchView, used: Option<Seq<char>>) -> (WatchView, WatchPlan) {
    match used {
        Some(p) => (
            WatchView { mounted: true, used: p, ..v },
            WatchPlan::Publish(Phase::Attached),
        ),
        None => (v, WatchPlan::BackOff(Phase::Attached)),
    }
}

/// What grew since `before`; nothing when the counter has started anew.
pub open spec fn growth(now: u64, before: u64) -> u64 {
    if now >= before {
        (now - before) as u64
    } else {
        0
    }
}

impl Watch {
    /// Starts with nothing mounted, and the counters as they are.
    pub fn new(rx: u64, tx: u64) -> (r: Self)
        ensures
            r@ == (WatchView {
                mounted: false,
                used: Seq::empty(),
                model: Seq::empty(),
                rx,
                tx,
            }),
    {
        let r = Watch { mounted: false, used: String::new(), model: String::new(), rx, tx };
        assert(r.used@ =~= Seq::empty());
        assert(r.model@ =~= Seq::empty());
        r
    }

    /// Begins a round.
    pub fn tick(&self, attached: bool) -> (step: WatchStep)
        ensures
            step@ == if attached {
                WatchPlan::Probe
            } else {
                WatchPlan::Connect
            },
    {
        if attached {
            WatchStep::Probe
        } else {
            WatchStep::Connect
        }
    }

    /// Goes on once the session was probed.
    pub fn probed(&self, answers: bool) -> (step: WatchStep)
        ensures
            step@ == if answers {
                WatchPlan::Publish(Phase::Attached)
            } else {
                WatchPlan::Detach(Phase::Gone)
            },
    {
        if answers {
            WatchStep::Publish(Phase::Attached)
        } else {
            WatchStep::Detach(Phase::Gone)
        }
    }

    /// Goes on after an attempt to connect; a phone may not tell its model.
    pub fn connected(&self, phone: Option<Option<String>>) -> (step: WatchStep)
        ensures
            step@ == match phone {
                None => WatchPlan::Publish(Phase::Waiting),
                Some(Some(m)) => WatchPlan::Attach(m@),
                Some(None) => WatchPlan::Attach("unknown"@),
            },
    {
        match phone {
            None => WatchStep::Publish(Phase::Waiting),
            Some(Some(m)) => WatchStep::Attach(m),
            Some(None) => WatchStep::Attach(owned("unknown")),
        }
    }

    /// Goes on once a session was attached, or was not.
    pub fn attached(&mut self, model: String, ok: bool) -> (step: WatchStep)
        ensures
            (final(self)@, step@) == watch_attached(old(self)@, model@, ok),
    {
        if !ok {
            return WatchStep::Publish(Phase::Waiting);
        }
        self.model = model;
        if self.mounted {
            WatchStep::CheckMount(self.used.clone())
        } else {
            WatchStep::Mount
        }
    }

    /// Goes on once the mount was looked at.
    pub fn mount_checked(&self, alive: bool) -> (step: WatchStep)
        ensures
            step@ == if alive {
                WatchPlan::Publish(Phase::Attached)
            } else {
                WatchPlan::Mount
            },
    {
        if alive {
            WatchStep::Publish(Phase::Attached)
        } else {
            WatchStep::Mount
        }
    }

    /// Goes on after a mount, or its failure.
    pub fn mounted(&mut self, used: Option<String>) -> (step: WatchStep)
        ensures
            (final(self)@, step@) == watch_mounted(
                old(self)@,
                match used {
                    Some(p) => Some(p@),
                    None => None,
                },
            ),
    {
        match used {
            Some(p) => {
                self.mounted = true;
                self.used = p;
                WatchStep::Publish(Phase::Attached)
            },
            None => WatchStep::BackOff(Phase::Attached),
        }
    }

    /// What was transferred since the last round.
    pub fn traffic(&mut self, rx: u64, tx: u64) -> (r: (u64, u64))
        ensures
            r.0 == growth(rx, old(self)@.rx),
            r.1 == growth(tx, old(self)@.tx),
            final(self)@ == (WatchView { rx, tx, ..old(self)@ }),
    {
        let r = (rx.saturating_sub(self.rx), tx.saturating_sub(self.tx));
        self.rx = rx;
        self.tx = tx;
        r
    }

    /// The model of the last phone.
    pub fn model(&self) -> (r: String)
        ensures
            r@ == self@.model,
    {
        self.model.clone()
    }

    /// Where the volume was mounted; empty when it was not.
    pub fn used(&self) -> (r: String)
        ensures
            r@ == self@.used,
    {
        self.used.clone()
    }

    /// The mount to release when the watcher stops.
    pub fn release(&self) -> (r: Option<String>)
        ensures
            match r {
                Some(p) => self@.mounted && p@ == self@.used,
                None => !self@.mounted,
            },
    {
        if self.mounted {
            Some(self.used.clone())
        } else {
            None
        }
    }
}

/// A phone that comes back finds the volume as it was: while the mount is
/// alive, no round mounts again.
pub proof fn law_living_mount_is_kept(v: WatchView, model: Seq<char>)
    requires
        v.mounted,
    ensures
        watch_attached(v, model, true).1 == WatchPlan::CheckMount(v.used),
        watch_attached(v, model, true).0 == (WatchView { model, ..v }),
{
}

/// A volume that is not mounted is mounted once a phone is attached; when no
/// session could be attached, nothing changes and the watcher goes on waiting.
pub proof fn law_unmounted_volume_is_mounted(v: WatchView, model: Seq<char>)
    ensures
        !v.mounted ==> watch_attached(v, model, true).1 == WatchPlan::Mount,
        watch_attached(v, model, true).0.model == model,
        watch_attached(v, model, true).0.mounted == v.mounted,
        watch_attached(v, model, true).0.used == v.used,
        watch_attached(v, model, false) == (v, WatchPlan::Publish(Phase::Waiting)),
{
}

/// After a mount the next phone finds the volume where it was mounted: the
/// watcher looks there, and mounts no second time unasked. A mount that failed
/// leaves things as they were, and the watcher waits before it tries again.
pub proof fn law_mount_is_remembered(v: WatchView, used: Seq<char>, model: Seq<char>)
    ensures
        watch_mounted(v, Some(used)).1 == WatchPlan::Publish(Phase::Attached),
        watch_attached(watch_mounted(v, Some(used)).0, model, true).1 == WatchPlan::CheckMount(
            used,
        ),
        watch_mounted(v, Some(used)).0.model == v.model,
        watch_mounted(v, None) == (v, WatchPlan::BackOff(Phase::Attached)),
{
}

/// What was transferred in two rounds adds up to what was transferred in both,
/// while the counter goes on; a counter that has started anew shows nothing.
pub proof fn law_traffic_adds_up(a: u64, b: u64, c: u64)
    ensures
        a <= b <= c ==> growth(b, a) + growth(c, b) == growth(c, a),
        a <= b ==> a + growth(b, a) == b,
        b < a ==> growth(b, a) == 0,
{
}

/// Each phase has a name of its own.
pub proof fn law_phases_have_their_names()
    ensures
        phase_text(Phase::Waiting) == "waiting"@,
        phase_text(Phase::Attached) == "attached"@,
        phase_text(Phase::Gone) == "gone"@,
        phase_text(Phase::Stopped) == "stopped"@,
{
}

} // verus!
