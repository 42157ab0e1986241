use vstd::prelude::*;

verus! {

/// What the player knows of a fully decoded copy of a file, which makes
/// seeking instant.
#[derive(Clone, Debug)]
pub struct PcmInfo {
    /// The file that was decoded.
    pub path: String,
    /// The number of interleaved samples.
    pub len: usize,
    pub sample_rate: u32,
    pub channels: u16,
}

/// The mathematical content of a `PcmInfo`.
pub struct PcmView {
    pub path: Seq<char>,
    pub len: usize,
    pub sample_rate: u32,
    pub channels: u16,
}

impl View for PcmInfo {
    type V = PcmView;

    open spec fn view(&self) -> PcmView {
        PcmView {
            path: self.path@,
            len: self.len,
            sample_rate: self.sample_rate,
            channels: self.channels,
        }
    }
}

/// The state of the audio thread. Times are milliseconds on a monotonic
/// clock that the caller reads; positions and durations are milliseconds.
pub struct PlayerState {
    /// Whether an output sink holds a source.
    pub has_sink: bool,
    /// The file being played (empty when none).
    pub file_path: String,
    pub duration_ms: u64,
    /// When playback of the current source started.
    pub started_at_ms: Option<u64>,
    /// The position at which the current source starts.
    pub seek_offset_ms: u64,
    /// Time spent paused since the source started, pauses that ended.
    pub total_paused_ms: u64,
    /// When the current pause began.
    pub pause_start_ms: Option<u64>,
    /// The decoded copy of a file, once a background decode delivered it.
    pub pcm: Option<PcmInfo>,
}

/// The mathematical content of a `PlayerState`.
pub struct PlayerView {
    pub has_sink: bool,
    pub file_path: Seq<char>,
    pub duration_ms: u64,
    pub started_at_ms: Option<u64>,
    pub seek_offset_ms: u64,
    pub total_paused_ms: u64,
    pub pause_start_ms: Option<u64>,
    pub pcm: Option<PcmView>,
}

impl View for PlayerState {
    type V = PlayerView;

    open spec fn view(&self) -> PlayerView {
        PlayerView {
            has_sink: self.has_sink,
            file_path: self.file_path@,
            duration_ms: self.duration_ms,
            started_at_ms: self.started_at_ms,
            seek_offset_ms: self.seek_offset_ms,
            total_paused_ms: self.total_paused_ms,
            pause_start_ms: self.pause_start_ms,
            pcm: match self.pcm {
                Some(p) => Some(p@),
                None => None,
            },
        }
    }
}

/// What the player reports.
#[derive(Clone, Debug)]
pub struct PlayerStatus {
    pub playing: bool,
    pub paused: bool,
    pub stopped: bool,
    pub position_ms: u64,
    pub duration_ms: u64,
    pub file_path: String,
}

/// The mathematical content of a `PlayerStatus`.
pub struct StatusView {
    pub playing: bool,
    pub paused: bool,
    pub stopped: bool,
    pub position_ms: u64,
    pub duration_ms: u64,
    pub file_path: Seq<char>,
}

impl View for PlayerStatus {
    type V = StatusView;

    open spec fn view(&self) -> StatusView {
        StatusView {
            playing: self.playing,
            paused: self.paused,
            stopped: self.stopped,
            position_ms: self.position_ms,
            duration_ms: self.duration_ms,
            file_path: self.file_path@,
        }
    }
}

/// What became of opening and decoding a file and creating a sink for it.
#[derive(Clone, Copy, Debug, PartialEq, Eq)]
pub enum OpenOutcome {
    /// The file did not open or decode.
    Failed,
    /// The file decoded (with this duration) but no sink could be made.
    NoSink(u64),
    /// The file plays in a new sink; it lasts this long.
    Started(u64),
}

/// What toggling playback of a file does.
#[derive(Clone, Copy, Debug, PartialEq, Eq)]
pub enum ToggleChoice {
    /// The file is the current one and paused: resume it.
    Resume,
    /// The file is the current one and playing: pause it.
    Pause,
    /// Another file: start it from the beginning.
    Start,
}

/// How to carry out a seek.
#[derive(Clone, Copy, Debug, PartialEq, Eq)]
pub struct SeekPlan {
    /// Whether a sink was playing and must be stopped.
    pub had_sink: bool,
    /// Whether playback was paused when the seek came.
    pub was_paused: bool,
    /// Where to seek to, when a file is loaded.
    pub target_ms: Option<u64>,
    /// The sample at which the decoded copy should resume, when it can serve.
    pub pcm_start: Option<usize>,
}

/// Milliseconds from `since` to `now`, zero when `now` is earlier.
pub open spec fn elapsed(now: u64, since: u64) -> int {
    if now >= since {
        now - since
    } else {
        0
    }
}

/// `a + b`, saturating at `u64::MAX`.
pub open spec fn sat_add(a: u64, b: int) -> u64 {
    if a + b > u64::MAX {
        u64::MAX
    } else {
        (a + b) as u64
    }
}

/// The unclamped playback position at `now`.
pub open spec fn raw_position(s: PlayerView, now: u64) -> int {
    match s.started_at_ms {
        Some(st) => s.seek_offset_ms + elapsed(now, st) - s.total_paused_ms - match s.pause_start_ms {
            Some(ps) => elapsed(now, ps),
            None => 0,
        },
        None => 0,
    }
}

/// The largest position reported: the duration when it is known.
pub open spec fn position_cap(s: PlayerView) -> int {
    if s.duration_ms > 0 {
        s.duration_ms as int
    } else {
        u64::MAX as int
    }
}

/// The playback position at `now`, clamped to `0..=position_cap(s)`.
pub open spec fn position_at(s: PlayerView, now: u64) -> u64 {
    if s.started_at_ms is None {
        0
    } else if raw_position(s, now) < 0 {
        0
    } else if raw_position(s, now) > position_cap(s) {
        position_cap(s) as u64
    } else {
        raw_position(s, now) as u64
    }
}

/// What the player reports of `s` at `now`, `finished` telling whether the
/// sink has run out of audio.
pub open spec fn status_of(s: PlayerView, finished: bool, now: u64) -> StatusView {
    let live = s.has_sink && !finished;
    StatusView {
        playing: live && s.pause_start_ms is None,
        paused: live && s.pause_start_ms is Some,
        stopped: !live,
        position_ms: position_at(s, now),
        duration_ms: s.duration_ms,
        file_path: s.file_path,
    }
}

/// The player before anything was played.
pub open spec fn initial_player() -> PlayerView {
    PlayerView {
        has_sink: false,
        file_path: seq![],
        duration_ms: 0,
        started_at_ms: None,
        seek_offset_ms: 0,
        total_paused_ms: 0,
        pause_start_ms: None,
        pcm: None,
    }
}

/// `s` once the old sink is stopped and the decoded copy dropped, before a
/// file is started.
pub open spec fn before_start(s: PlayerView) -> PlayerView {
    PlayerView { has_sink: false, pcm: None, ..s }
}

/// `s` once opening `path` at `now` came out as `outcome`. An empty path
/// names no file: opening it fails, whatever `outcome` says.
pub open spec fn after_open(s: PlayerView, path: Seq<char>, outcome: OpenOutcome, now: u64) -> PlayerView {
    match outcome {
        OpenOutcome::Failed => s,
        _ if path.len() == 0 => s,
        OpenOutcome::NoSink(d) => PlayerView { duration_ms: d, ..s },
        OpenOutcome::Started(d) => PlayerView {
            has_sink: true,
            file_path: path,
            duration_ms: d,
            started_at_ms: Some(now),
            seek_offset_ms: 0,
            total_paused_ms: 0,
            pause_start_ms: None,
            ..s
        },
    }
}

/// `s` paused at `now` (a pause that is already running restarts).
pub open spec fn after_pause(s: PlayerView, now: u64) -> PlayerView {
    PlayerView { pause_start_ms: Some(now), ..s }
}

/// `s` resumed at `now`: the pause that ran is added to the paused time.
pub open spec fn after_resume(s: PlayerView, now: u64) -> PlayerView {
    PlayerView {
        total_paused_ms: match s.pause_start_ms {
            Some(ps) => sat_add(s.total_paused_ms, elapsed(now, ps)),
            None => s.total_paused_ms,
        },
        pause_start_ms: None,
        ..s
    }
}

/// `s` stopped: no sink, no file, no duration, no timing, no decoded copy.
pub open spec fn after_stop(s: PlayerView) -> PlayerView {
    PlayerView {
        has_sink: false,
        file_path: seq![],
        duration_ms: 0,
        started_at_ms: None,
        seek_offset_ms: 0,
        total_paused_ms: 0,
        pause_start_ms: None,
        pcm: None,
    }
}

/// What toggling `path` does in state `s`.
pub open spec fn toggle_choice(s: PlayerView, path: Seq<char>) -> ToggleChoice {
    if s.file_path == path && s.file_path.len() > 0 && s.pause_start_ms is Some {
        ToggleChoice::Resume
    } else if s.file_path == path && s.file_path.len() > 0 {
        ToggleChoice::Pause
    } else {
        ToggleChoice::Start
    }
}

/// Where a seek to `position` lands: no later than the duration.
pub open spec fn seek_target(s: PlayerView, position: u64) -> u64 {
    if position < s.duration_ms {
        position
    } else {
        s.duration_ms
    }
}

/// The sample of the decoded copy at `target` milliseconds (interleaved),
/// no further than its end.
pub open spec fn pcm_sample_at(p: PcmView, target: u64) -> int {
    let raw = target * p.sample_rate * p.channels / 1000;
    if raw < p.len {
        raw
    } else {
        p.len as int
    }
}

/// The plan for seeking `s` to `position`.
pub open spec fn seek_plan(s: PlayerView, position: u64) -> SeekPlan {
    let target = seek_target(s, position);
    SeekPlan {
        had_sink: s.has_sink,
        was_paused: s.pause_start_ms is Some,
        target_ms: if s.file_path.len() > 0 {
            Some(target)
        } else {
            None
        },
        pcm_start: match s.pcm {
            Some(p) => if s.file_path.len() > 0 && p.path == s.file_path && p.len > 0
                && pcm_sample_at(p, target) < p.len {
                Some(pcm_sample_at(p, target) as usize)
            } else {
                None
            },
            None => None,
        },
    }
}

/// `s` once a seek is under way: the old sink is gone.
pub open spec fn during_seek(s: PlayerView) -> PlayerView {
    PlayerView { has_sink: false, ..s }
}

/// `s` once a sink was made that plays from `target` (paused if `was_paused`).
pub open spec fn after_seek(s: PlayerView, target: u64, was_paused: bool, now: u64) -> PlayerView {
    PlayerView {
        has_sink: true,
        pause_start_ms: if was_paused {
            Some(now)
        } else {
            None
        },
        seek_offset_ms: target,
        started_at_ms: Some(now),
        total_paused_ms: 0,
        ..s
    }
}

impl PlayerState {
    /// The player before anything was played.
    pub fn new() -> (p: PlayerState)
        ensures
            p@ == initial_player(),
    {
        PlayerState {
            has_sink: false,
            file_path: String::new(),
            duration_ms: 0,
            started_at_ms: None,
            seek_offset_ms: 0,
            total_paused_ms: 0,
            pause_start_ms: None,
            pcm: None,
        }
    }

    /// The first half of starting a file: forgets the sink and the decoded
    /// copy. Returns whether there was a sink, which the caller stops before
    /// it opens the file.
    pub fn begin_start(&mut self) -> (had_sink: bool)
        ensures
            had_sink == old(self)@.has_sink,
            final(self)@ == before_start(old(self)@),
    {
        let had = self.has_sink;
        self.has_sink = false;
        self.pcm = None;
        had
    }

    /// The second half of starting `path`: records what opening it came to at
    /// `now`. Returns the file to decode in the background for fast seeking:
    /// the current file, when there is one.
    pub fn finish_start(&mut self, path: String, outcome: OpenOutcome, now_ms: u64) -> (decode: Option<String>)
        ensures
            final(self)@ == after_open(old(self)@, path@, outcome, now_ms),
            match decode {
                Some(p) => p@ == final(self)@.file_path && p@.len() > 0,
                None => final(self)@.file_path.len() == 0,
            },
    {
        match outcome {
            OpenOutcome::Failed => {},
            _ if path.as_str().is_empty() => {},
            OpenOutcome::NoSink(d) => {
                self.duration_ms = d;
            },
            OpenOutcome::Started(d) => {
                self.duration_ms = d;
                self.has_sink = true;
                self.file_path = path;
                self.started_at_ms = Some(now_ms);
                self.seek_offset_ms = 0;
                self.total_paused_ms = 0;
                self.pause_start_ms = None;
            },
        }
        if !self.file_path.as_str().is_empty() {
            Some(self.file_path.clone())
        } else {
            None
        }
    }

    /// What toggling `path` does now.
    pub fn toggle_choice(&self, path: &str) -> (c: ToggleChoice)
        ensures
            c == toggle_choice(self@, path@),
    {
        let same = str_equal(self.file_path.as_str(), path);
        if same && !self.file_path.as_str().is_empty() && self.pause_start_ms.is_some() {
            ToggleChoice::Resume
        } else if same && !self.file_path.as_str().is_empty() {
            ToggleChoice::Pause
        } else {
            ToggleChoice::Start
        }
    }

    /// Pauses at `now`. Returns whether there is a sink to pause.
    pub fn pause(&mut self, now_ms: u64) -> (has_sink: bool)
        ensures
            has_sink == old(self)@.has_sink,
            final(self)@ == after_pause(old(self)@, now_ms),
    {
        self.pause_start_ms = Some(now_ms);
        self.has_sink
    }

    /// Resumes at `now`. Returns whether there is a sink to resume.
    pub fn resume(&mut self, now_ms: u64) -> (has_sink: bool)
        ensures
            has_sink == old(self)@.has_sink,
            final(self)@ == after_resume(old(self)@, now_ms),
    {
        if let Some(ps) = self.pause_start_ms {
            let e: u64 = if now_ms >= ps { now_ms - ps } else { 0 };
            self.total_paused_ms = self.total_paused_ms.saturating_add(e);
        }
        self.pause_start_ms = None;
        self.has_sink
    }

    /// Stops playback and forgets the file. Returns whether there was a sink
    /// to stop.
    pub fn stop(&mut self) -> (had_sink: bool)
        ensures
            had_sink == old(self)@.has_sink,
            final(self)@ == after_stop(old(self)@),
    {
        let had = self.has_sink;
        self.has_sink = false;
        self.file_path = String::new();
        self.duration_ms = 0;
        self.started_at_ms = None;
        self.seek_offset_ms = 0;
        self.total_paused_ms = 0;
        self.pause_start_ms = None;
        self.pcm = None;
        had
    }

    /// Takes a duration measured elsewhere (from the database, say).
    pub fn set_duration(&mut self, duration_ms: u64)
        ensures
            final(self)@ == (PlayerView { duration_ms, ..old(self)@ }),
    {
        self.duration_ms = duration_ms;
    }

    /// Takes the decoded copy of a file that a background decode delivered.
    pub fn pcm_ready(&mut self, info: PcmInfo)
        ensures
            final(self)@ == (PlayerView { pcm: Some(info@), ..old(self)@ }),
    {
        self.pcm = Some(info);
    }

    /// The first half of a seek to `position_ms`: forgets the sink and says
    /// how to go on.
    pub fn begin_seek(&mut self, position_ms: u64) -> (plan: SeekPlan)
        ensures
            plan == seek_plan(old(self)@, position_ms),
            final(self)@ == during_seek(old(self)@),
    {
        let had_sink = self.has_sink;
        let was_paused = self.pause_start_ms.is_some();
        self.has_sink = false;
        let loaded = !self.file_path.as_str().is_empty();
        let target = if position_ms < self.duration_ms { position_ms } else { self.duration_ms };
        let mut pcm_start: Option<usize> = None;
        if let Some(p) = &self.pcm {
            if loaded && str_equal(p.path.as_str(), self.file_path.as_str()) && p.len > 0 {
                let a: u128 = target as u128;
                let b: u128 = p.sample_rate as u128;
                let c: u128 = p.channels as u128;
                assert(a * b <= 0xffff_ffff_ffff_ffffu128 * 0xffff_ffffu128) by (nonlinear_arith)
                    requires
                        a <= 0xffff_ffff_ffff_ffffu128,
                        b <= 0xffff_ffffu128,
                ;
                let ab: u128 = a * b;
                assert(ab * c <= 0xffff_ffff_ffff_ffffu128 * 0xffff_ffffu128 * 0xffffu128) by (nonlinear_arith)
                    requires
                        ab <= 0xffff_ffff_ffff_ffffu128 * 0xffff_ffffu128,
                        c <= 0xffffu128,
                ;
                let raw: u128 = ab * c / 1000;
                let start: usize = if raw < p.len as u128 { raw as usize } else { p.len };
                if start < p.len {
                    pcm_start = Some(start);
                }
            }
        }
        SeekPlan {
            had_sink,
            was_paused,
            target_ms: if loaded { Some(target) } else { None },
            pcm_start,
        }
    }

    /// The second half of a seek: when a new sink plays from `target_ms`
    /// (`started`), records it at `now`.
    pub fn finish_seek(&mut self, target_ms: u64, was_paused: bool, started: bool, now_ms: u64)
        ensures
            final(self)@ == if started {
                after_seek(old(self)@, target_ms, was_paused, now_ms)
            } else {
                old(self)@
            },
    {
        if started {
            self.has_sink = true;
            self.pause_start_ms = if was_paused { Some(now_ms) } else { None };
            self.seek_offset_ms = target_ms;
            self.started_at_ms = Some(now_ms);
            self.total_paused_ms = 0;
        }
    }

    /// The playback position at `now`.
    pub fn position(&self, now_ms: u64) -> (p: u64)
        ensures
            p == position_at(self@, now_ms),
    {
        match self.started_at_ms {
            None => 0,
            Some(st) => {
                let run: i128 = if now_ms >= st { (now_ms - st) as i128 } else { 0 };
                let held: i128 = match self.pause_start_ms {
                    Some(ps) => if now_ms >= ps { (now_ms - ps) as i128 } else { 0 },
                    None => 0,
                };
                let raw: i128 = self.seek_offset_ms as i128 + run - self.total_paused_ms as i128 - held;
                let cap: u64 = if self.duration_ms > 0 { self.duration_ms } else { u64::MAX };
                if raw < 0 {
                    0
                } else if raw > cap as i128 {
                    cap
                } else {
                    raw as u64
                }
            },
        }
    }

    /// What the player reports at `now`; `sink_finished` tells whether the
    /// sink has run out of audio.
    pub fn status(&self, sink_finished: bool, now_ms: u64) -> (st: PlayerStatus)
        ensures
            st@ == status_of(self@, sink_finished, now_ms),
    {
        let live = self.has_sink && !sink_finished;
        PlayerStatus {
            playing: live && self.pause_start_ms.is_none(),
            paused: live && self.pause_start_ms.is_some(),
            stopped: !live,
            position_ms: self.position(now_ms),
            duration_ms: self.duration_ms,
            file_path: self.file_path.clone(),
        }
    }
}

/// What every state that the player reaches keeps, read at `now` on a clock
/// that never runs back: a player with no file has no sink, and the time
/// spent paused since playback started is no more than the time that has
/// passed since then (so the position's arithmetic never saturates).
pub open spec fn player_invariant(s: PlayerView, now: u64) -> bool {
    &&& (s.file_path.len() == 0 ==> !s.has_sink)
    &&& match s.started_at_ms {
        Some(st) => st <= now && match s.pause_start_ms {
            Some(ps) => st <= ps && ps <= now && s.total_paused_ms <= ps - st,
            None => s.total_paused_ms <= now - st,
        },
        None => true,
    }
}

/// The player starts out in a state that keeps the invariant, and every
/// operation, made at a time no earlier than the last, keeps it (a seek
/// finishes only on a loaded file, as its plan says).
pub proof fn law_invariant_kept(
    s: PlayerView,
    now: u64,
    later: u64,
    path: Seq<char>,
    outcome: OpenOutcome,
    duration: u64,
    pcm: PcmView,
    target: u64,
    was_paused: bool,
)
    requires
        player_invariant(s, now),
        now <= later,
    ensures
        player_invariant(initial_player(), now),
        player_invariant(s, later),
        player_invariant(before_start(s), later),
        player_invariant(after_open(s, path, outcome, later), later),
        player_invariant(after_pause(s, later), later),
        player_invariant(after_resume(s, later), later),
        player_invariant(after_stop(s), later),
        player_invariant(PlayerView { duration_ms: duration, ..s }, later),
        player_invariant(PlayerView { pcm: Some(pcm), ..s }, later),
        player_invariant(during_seek(s), later),
        s.file_path.len() > 0 ==> player_invariant(after_seek(s, target, was_paused, later), later),
{
}

/// A player with no file reports stopped.
pub proof fn law_no_file_is_stopped(s: PlayerView, finished: bool, now: u64)
    requires
        player_invariant(s, now),
        s.file_path.len() == 0,
    ensures
        status_of(s, finished, now).stopped,
        status_of(s, finished, now).file_path.len() == 0,
{
}

/// Exactly one of playing, paused and stopped holds of every report.
pub proof fn law_status_exactly_one(s: PlayerView, finished: bool, now: u64)
    ensures
        ({
            let st = status_of(s, finished, now);
            (st.playing && !st.paused && !st.stopped) || (!st.playing && st.paused && !st.stopped)
                || (!st.playing && !st.paused && st.stopped)
        }),
{
}

/// The reported position never passes a known duration.
pub proof fn law_position_within_duration(s: PlayerView, finished: bool, now: u64)
    requires
        s.duration_ms > 0,
    ensures
        status_of(s, finished, now).position_ms <= s.duration_ms,
{
}

/// While a pause runs, the position does not move.
pub proof fn law_paused_position_frozen(s: PlayerView, t1: u64, t2: u64)
    requires
        s.started_at_ms matches Some(st) && t1 >= st && t2 >= st,
        s.pause_start_ms matches Some(ps) && t1 >= ps && t2 >= ps,
    ensures
        position_at(s, t1) == position_at(s, t2),
{
}

/// Resuming does not move the position.
pub proof fn law_resume_keeps_position(s: PlayerView, now: u64)
    requires
        player_invariant(s, now),
        s.started_at_ms is Some,
        s.pause_start_ms is Some,
    ensures
        position_at(after_resume(s, now), now) == position_at(s, now),
{
}

/// Time spent paused does not count: pausing at `t1` and resuming at `t2`
/// leaves the position where it was at `t1`.
pub proof fn law_pause_time_not_counted(s: PlayerView, t1: u64, t2: u64)
    requires
        player_invariant(s, t1),
        s.pause_start_ms is None,
        s.started_at_ms is Some,
        t2 >= t1,
    ensures
        position_at(after_resume(after_pause(s, t1), t2), t2) == position_at(s, t1),
{
}

/// Toggling the current file pauses it, toggling again resumes it, and
/// nothing else of the player changes on the way.
pub proof fn law_toggle_round_trip(s: PlayerView, path: Seq<char>, t1: u64, t2: u64)
    requires
        s.file_path == path,
        path.len() > 0,
        s.pause_start_ms is None,
    ensures
        toggle_choice(s, path) == ToggleChoice::Pause,
        toggle_choice(after_pause(s, t1), path) == ToggleChoice::Resume,
        ({
            let r = after_resume(after_pause(s, t1), t2);
            &&& r.pause_start_ms is None
            &&& toggle_choice(r, path) == ToggleChoice::Pause
            &&& r.has_sink == s.has_sink
            &&& r.file_path == s.file_path
            &&& r.duration_ms == s.duration_ms
            &&& r.started_at_ms == s.started_at_ms
            &&& r.seek_offset_ms == s.seek_offset_ms
        }),
{
}

/// Toggling another file (or any file when none is loaded) starts it.
pub proof fn law_toggle_other_file_starts(s: PlayerView, path: Seq<char>)
    requires
        s.file_path != path || s.file_path.len() == 0,
    ensures
        toggle_choice(s, path) == ToggleChoice::Start,
{
}

/// After a stop the player reports stopped, at position zero, with no file
/// and no duration, whatever came before.
pub proof fn law_stop_resets(s: PlayerView, finished: bool, now: u64)
    ensures
        ({
            let st = status_of(after_stop(s), finished, now);
            &&& st.stopped && !st.playing && !st.paused
            &&& st.position_ms == 0
            &&& st.duration_ms == 0
            &&& st.file_path.len() == 0
        }),
{
}

/// A file that started plays from the beginning, with its duration.
pub proof fn law_started_file_plays_from_start(s: PlayerView, path: Seq<char>, d: u64, now: u64)
    requires
        path.len() > 0,
    ensures
        ({
            let st = status_of(
                after_open(before_start(s), path, OpenOutcome::Started(d), now),
                false,
                now,
            );
            &&& st.playing && !st.paused && !st.stopped
            &&& st.position_ms == 0
            &&& st.duration_ms == d
            &&& st.file_path == path
        }),
{
}

/// A file that did not open leaves no sink: the player reports stopped.
pub proof fn law_failed_start_is_stopped(s: PlayerView, path: Seq<char>, finished: bool, now: u64)
    ensures
        status_of(after_open(before_start(s), path, OpenOutcome::Failed, now), finished, now).stopped,
{
}

/// A seek lands no later than the duration nor the requested position, and
/// the decoded copy serves it only from a sample inside it.
pub proof fn law_seek_within_bounds(s: PlayerView, position: u64)
    ensures
        seek_plan(s, position).target_ms matches Some(t) ==> t <= s.duration_ms && t <= position,
        seek_plan(s, position).pcm_start matches Some(k) ==> (s.pcm matches Some(p) && k < p.len
            && p.path == s.file_path),
        seek_plan(s, position).target_ms is None <==> s.file_path.len() == 0,
{
}

/// After a seek to `target`, playback reports `target` as its position and
/// keeps the pause it had.
pub proof fn law_seek_lands_on_target(s: PlayerView, target: u64, was_paused: bool, now: u64)
    requires
        target <= s.duration_ms,
    ensures
        position_at(after_seek(s, target, was_paused, now), now) == target,
        status_of(after_seek(s, target, was_paused, now), false, now).paused == was_paused,
{
}

/// Whether `a` and `b` are the same string.
fn str_equal(a: &str, b: &str) -> (r: bool)
    ensures
        r == (a@ == b@),
{
    let x = crate::text::chars_of(a);
    let y = crate::text::chars_of(b);
    crate::text::chars_equal(&x, &y)
}

} // verus!
