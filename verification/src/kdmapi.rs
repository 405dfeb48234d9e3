//! The stream of the KDMAPI: which of its parts is started and stopped when.

use vstd::prelude::*;

verus! {

/// The steps of starting a stream, in order.
#[derive(Copy, Clone, Debug, PartialEq, Eq, Structural)]
pub enum InitStep {
    LoadSettings,
    LoadSoundfonts,
    FindSettings,
    FindSoundfonts,
    OpenSynth,
    StartStats,
    CreateWatcher,
    WatchSettings,
    WatchSoundfonts,
    Install,
}

impl InitStep {
    /// The number of the step.
    pub open spec fn number(self) -> int {
        match self {
            InitStep::LoadSettings => 0,
            InitStep::LoadSoundfonts => 1,
            InitStep::FindSettings => 2,
            InitStep::FindSoundfonts => 3,
            InitStep::OpenSynth => 4,
            InitStep::StartStats => 5,
            InitStep::CreateWatcher => 6,
            InitStep::WatchSettings => 7,
            InitStep::WatchSoundfonts => 8,
            InitStep::Install => 9,
        }
    }

    /// Whether a step can fail: opening the parts can, starting the thread of the statistics and
    /// putting the new synthesizer in place cannot.
    pub open spec fn can_fail(self) -> bool {
        self != InitStep::StartStats && self != InitStep::Install
    }

    /// The message that a failure of the step is reported with.
    pub open spec fn complaint(self) -> Seq<char> {
        match self {
            InitStep::LoadSettings => "failed to load settings.json"@,
            InitStep::LoadSoundfonts => "failed to load soundfonts.json"@,
            InitStep::FindSettings => "failed to resolve settings.json path"@,
            InitStep::FindSoundfonts => "failed to resolve soundfonts.json path"@,
            InitStep::OpenSynth => "failed to open realtime synth"@,
            InitStep::StartStats => ""@,
            InitStep::CreateWatcher => "failed to initialize file watcher"@,
            InitStep::WatchSettings => "failed to watch settings.json"@,
            InitStep::WatchSoundfonts => "failed to watch soundfonts.json"@,
            InitStep::Install => ""@,
        }
    }
}

/// What follows a step of starting a stream.
#[derive(Clone, Debug)]
pub enum InitAction {
    /// Take the next step.
    Go(InitStep),
    /// Report a failure and give up. `stop_stats` tells whether the thread of the statistics runs
    /// and has to be stopped.
    Fail { complaint: String, stop_stats: bool },
    /// The stream has started.
    Done,
}

/// Whether `action` follows from how a step went.
pub open spec fn follows(step: InitStep, worked: bool, action: InitAction) -> bool {
    if worked || !step.can_fail() {
        match action {
            InitAction::Go(next) => next.number() == step.number() + 1,
            InitAction::Fail { .. } => false,
            InitAction::Done => step == InitStep::Install,
        }
    } else {
        action matches InitAction::Fail { complaint, stop_stats } && complaint@ == step.complaint()
            && stop_stats == (step.number() > InitStep::StartStats.number())
    }
}

/// The first step of starting a stream.
pub fn first_step() -> (step: InitStep)
    ensures
        step.number() == 0,
{
    InitStep::LoadSettings
}

/// What follows from how a step went.
pub fn after_step(step: InitStep, worked: bool) -> (action: InitAction)
    ensures
        follows(step, worked, action),
{
    match step {
        InitStep::LoadSettings => {
            if worked {
                InitAction::Go(InitStep::LoadSoundfonts)
            } else {
                InitAction::Fail {
                    complaint: "failed to load settings.json".to_owned(),
                    stop_stats: false,
                }
            }
        },
        InitStep::LoadSoundfonts => {
            if worked {
                InitAction::Go(InitStep::FindSettings)
            } else {
                InitAction::Fail {
                    complaint: "failed to load soundfonts.json".to_owned(),
                    stop_stats: false,
                }
            }
        },
        InitStep::FindSettings => {
            if worked {
                InitAction::Go(InitStep::FindSoundfonts)
            } else {
                InitAction::Fail {
                    complaint: "failed to resolve settings.json path".to_owned(),
                    stop_stats: false,
                }
            }
        },
        InitStep::FindSoundfonts => {
            if worked {
                InitAction::Go(InitStep::OpenSynth)
            } else {
                InitAction::Fail {
                    complaint: "failed to resolve soundfonts.json path".to_owned(),
                    stop_stats: false,
                }
            }
        },
        InitStep::OpenSynth => {
            if worked {
                InitAction::Go(InitStep::StartStats)
            } else {
                InitAction::Fail {
                    complaint: "failed to open realtime synth".to_owned(),
                    stop_stats: false,
                }
            }
        },
        InitStep::StartStats => InitAction::Go(InitStep::CreateWatcher),
        InitStep::CreateWatcher => {
            if worked {
                InitAction::Go(InitStep::WatchSettings)
            } else {
                InitAction::Fail {
                    complaint: "failed to initialize file watcher".to_owned(),
                    stop_stats: true,
                }
            }
        },
        InitStep::WatchSettings => {
            if worked {
                InitAction::Go(InitStep::WatchSoundfonts)
            } else {
                InitAction::Fail {
                    complaint: "failed to watch settings.json".to_owned(),
                    stop_stats: true,
                }
            }
        },
        InitStep::WatchSoundfonts => {
            if worked {
                InitAction::Go(InitStep::Install)
            } else {
                InitAction::Fail {
                    complaint: "failed to watch soundfonts.json".to_owned(),
                    stop_stats: true,
                }
            }
        },
        InitStep::Install => InitAction::Done,
    }
}

/// The synthesizer that plays the stream, if one does, and the number of its voices.
pub struct GlobalState<S> {
    synth: Option<S>,
    current_voice_count: u64,
}

impl<S> GlobalState<S> {
    /// The synthesizer that plays.
    pub closed spec fn playing(&self) -> Option<S> {
        self.synth
    }

    /// The number of voices.
    pub closed spec fn voices(&self) -> u64 {
        self.current_voice_count
    }

    /// Nothing plays.
    pub fn new() -> (state: Self)
        ensures
            state.playing() is None,
            state.voices() == 0,
    {
        GlobalState { synth: None, current_voice_count: 0 }
    }

    /// Takes note of the number of voices.
    pub fn set_voice_count(&mut self, count: u64)
        ensures
            final(self).playing() == old(self).playing(),
            final(self).voices() == count,
    {
        self.current_voice_count = count;
    }

    /// The number of voices.
    pub fn get_voice_count(&self) -> (count: u64)
        ensures
            count == self.voices(),
    {
        self.current_voice_count
    }

    /// Puts a synthesizer in place, and gives back the one that has to be torn down.
    pub fn install(&mut self, synth: S) -> (replaced: Option<S>)
        ensures
            final(self).playing() == Some(synth),
            final(self).voices() == old(self).voices(),
            replaced == old(self).playing(),
    {
        let replaced = self.synth.take();
        self.synth = Some(synth);
        replaced
    }

    /// Ends the stream: gives back the synthesizer that has to be torn down. The result for the
    /// caller is 1 if there was one, and 0 if not.
    pub fn terminate(&mut self) -> (ended: (i32, Option<S>))
        ensures
            final(self).playing() is None,
            ended.1 == old(self).playing(),
            ended.0 == if old(self).playing() is Some {
                1int
            } else {
                0
            },
            final(self).voices() == if old(self).playing() is Some {
                0
            } else {
                old(self).voices()
            },
    {
        let synth = self.synth.take();
        match synth {
            Some(synth) => {
                self.current_voice_count = 0;
                (1, Some(synth))
            },
            None => (0, None),
        }
    }

    /// Whether a stream plays: 1 or 0. It is what sending to it answers, too.
    pub fn is_available(&self) -> (available: u32)
        ensures
            available == if self.playing() is Some {
                1int
            } else {
                0
            },
    {
        match &self.synth {
            Some(_) => 1,
            None => 0,
        }
    }

    /// The synthesizer that plays.
    pub fn synth_ref(&self) -> (synth: Option<&S>)
        ensures
            match synth {
                Some(synth) => self.playing() == Some(*synth),
                None => self.playing() is None,
            },
    {
        self.synth.as_ref()
    }
}

/// The version of the interface: major, minor, build and revision.
pub fn kdmapi_version() -> (version: (u32, u32, u32, u32))
    ensures
        version == (4u32, 1u32, 0u32, 5u32),
{
    (4, 1, 0, 5)
}

/// Whether `run` is a way of starting a stream: it begins with the first step, and each step leads to
/// the next one.
pub open spec fn is_run(run: Seq<InitStep>, worked: Seq<bool>) -> bool {
    &&& run.len() > 0
    &&& worked.len() == run.len()
    &&& run[0].number() == 0
    &&& forall|i: int| 0 <= i < run.len() - 1 ==> #[trigger] goes_on(run, worked, i)
}

/// Whether step `i` of `run` leads to the next one.
pub open spec fn goes_on(run: Seq<InitStep>, worked: Seq<bool>, i: int) -> bool {
    follows(run[i], worked[i], InitAction::Go(run[i + 1]))
}

/// The steps of a way of starting a stream are taken in order, and none is passed over: before the
/// last one all earlier ones were taken, and worked if they can fail. So a new synthesizer is put in
/// place only after everything it needs was there.
pub proof fn lemma_steps_in_order(run: Seq<InitStep>, worked: Seq<bool>, i: int)
    requires
        is_run(run, worked),
        0 <= i < run.len(),
    ensures
        run[i].number() == i,
        forall|j: int| 0 <= j < i && (#[trigger] run[j]).can_fail() ==> worked[j],
    decreases i,
{
    if i > 0 {
        lemma_steps_in_order(run, worked, i - 1);
        assert(goes_on(run, worked, i - 1));
    }
}

/// Giving up stops the thread of the statistics if and only if it was started on the way.
pub proof fn lemma_stats_stopped(
    run: Seq<InitStep>,
    worked: Seq<bool>,
    complaint: String,
    stop_stats: bool,
)
    requires
        is_run(run, worked),
        follows(run.last(), worked.last(), (InitAction::Fail { complaint, stop_stats })),
    ensures
        stop_stats == run.contains(InitStep::StartStats),
{
    let last = run.len() - 1;
    lemma_steps_in_order(run, worked, last);
    if stop_stats {
        lemma_steps_in_order(run, worked, 5);
        assert(run[5] == InitStep::StartStats);
    } else if run.contains(InitStep::StartStats) {
        let i = choose|i: int| 0 <= i < run.len() && run[i] == InitStep::StartStats;
        lemma_steps_in_order(run, worked, i);
    }
}

/// Whether `later` comes right behind `earlier` when a stream is started: the settings are loaded and
/// then the soundfonts, both are looked for, the synthesizer is opened, the statistics start, the
/// files are watched, and last the synthesizer is put in place.
pub open spec fn comes_next(earlier: InitStep, later: InitStep) -> bool {
    match earlier {
        InitStep::LoadSettings => later is LoadSoundfonts,
        InitStep::LoadSoundfonts => later is FindSettings,
        InitStep::FindSettings => later is FindSoundfonts,
        InitStep::FindSoundfonts => later is OpenSynth,
        InitStep::OpenSynth => later is StartStats,
        InitStep::StartStats => later is CreateWatcher,
        InitStep::CreateWatcher => later is WatchSettings,
        InitStep::WatchSettings => later is WatchSoundfonts,
        InitStep::WatchSoundfonts => later is Install,
        InitStep::Install => false,
    }
}

/// A step that worked leads to the next one, and the last one to the end. One that did not gives up,
/// and stops the statistics if they have started; only starting them and putting the synthesizer in
/// place cannot fail.
pub proof fn lemma_after_a_step(first: InitStep, step: InitStep, worked: bool, action: InitAction)
    requires
        call_ensures(first_step, (), first),
        call_ensures(after_step, (step, worked), action),
    ensures
        first is LoadSettings,
        action matches InitAction::Go(next) ==> comes_next(step, next) && (worked
            || step is StartStats),
        action is Done ==> step is Install,
        action matches InitAction::Fail { stop_stats, .. } ==> !worked && !(step is StartStats) && !(
        step is Install) && (stop_stats <==> step is CreateWatcher || step is WatchSettings
            || step is WatchSoundfonts),
        worked ==> !(action is Fail),
{
}

/// A failure is reported with the step that failed.
pub proof fn lemma_complaints(step: InitStep, worked: bool, action: InitAction)
    requires
        call_ensures(after_step, (step, worked), action),
    ensures
        action matches InitAction::Fail { complaint, .. } ==> match step {
            InitStep::LoadSettings => complaint@ == "failed to load settings.json"@,
            InitStep::LoadSoundfonts => complaint@ == "failed to load soundfonts.json"@,
            InitStep::FindSettings => complaint@ == "failed to resolve settings.json path"@,
            InitStep::FindSoundfonts => complaint@ == "failed to resolve soundfonts.json path"@,
            InitStep::OpenSynth => complaint@ == "failed to open realtime synth"@,
            InitStep::CreateWatcher => complaint@ == "failed to initialize file watcher"@,
            InitStep::WatchSettings => complaint@ == "failed to watch settings.json"@,
            InitStep::WatchSoundfonts => complaint@ == "failed to watch soundfonts.json"@,
            _ => true,
        },
{
}

/// A synthesizer that is put in place plays until it is replaced or the stream ends, and is handed
/// back then, so that each one is torn down once. Ending the stream leaves no voices.
pub proof fn lemma_streams_end<S>(
    installing: &mut GlobalState<S>,
    synth: S,
    replaced: Option<S>,
    ending: &mut GlobalState<S>,
    ended: (i32, Option<S>),
    asked: GlobalState<S>,
    available: u32,
    fresh: GlobalState<S>,
)
    requires
        call_ensures(GlobalState::<S>::install, (installing, synth), replaced),
        call_ensures(GlobalState::<S>::terminate, (ending,), ended),
        call_ensures(GlobalState::<S>::is_available, (&asked,), available),
        call_ensures(GlobalState::<S>::new, (), fresh),
    ensures
        final(installing).playing() == Some(synth),
        replaced == old(installing).playing(),
        final(installing).voices() == old(installing).voices(),
        final(ending).playing() is None,
        ended.1 == old(ending).playing(),
        ended.0 == 1 <==> old(ending).playing() is Some,
        ended.0 == 0 <==> old(ending).playing() is None,
        old(ending).playing() is Some ==> final(ending).voices() == 0,
        old(ending).playing() is None ==> final(ending).voices() == old(ending).voices(),
        available == 1 <==> asked.playing() is Some,
        available == 0 <==> asked.playing() is None,
        fresh.playing() is None,
        fresh.voices() == 0,
{
}

/// The number of voices that was noted last is the one that is told.
pub proof fn lemma_voice_count<S>(
    state: &mut GlobalState<S>,
    count: u64,
    read: GlobalState<S>,
    told: u64,
)
    requires
        call_ensures(GlobalState::<S>::set_voice_count, (state, count), ()),
        call_ensures(GlobalState::<S>::get_voice_count, (&read,), told),
        read == *final(state),
    ensures
        told == count,
        final(state).playing() == old(state).playing(),
{
}

/// The synthesizer that plays is the one that is handed out, and the interface is of version 4.1.0.5.
pub proof fn lemma_playing_synth<S>(
    state: GlobalState<S>,
    synth: Option<&S>,
    version: (u32, u32, u32, u32),
)
    requires
        call_ensures(GlobalState::<S>::synth_ref, (&state,), synth),
        call_ensures(kdmapi_version, (), version),
    ensures
        synth is Some <==> state.playing() is Some,
        synth matches Some(synth) ==> state.playing() == Some(*synth),
        version.0 == 4 && version.1 == 1 && version.2 == 0 && version.3 == 5,
{
}

} // verus!
