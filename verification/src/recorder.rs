//! Recording audio streams to files.
use vstd::prelude::*;

use crate::calendar::{
    chrono_timestamp, has_four_digit_year, timestamp, timestamps_sort, LAST_DAY,
};
use crate::commands::{CommandView, RigCommand};
use crate::id_table::IdTable;
use crate::ids::{parse_uuid, uuid_named};
use crate::ogg::AudioParams;
use crate::order::{
    goes_before, is_stable_order, order_by_text, text_key_less, text_less, text_less_behind,
    text_less_common, text_less_irreflexive, text_less_transitive,
};
use crate::table::Table;
use crate::text::{
    contains, decimal, ends_with, ends_with_spec, found_parts_are_there, join2, join3, occurs_at,
    occurs_in, opt_clone, opt_view, own, parts_are_found, str_eq, u64_text,
};

verus! {

/// Whether recordings can be made, and where they go.
#[derive(Debug)]
pub struct RecorderConfig {
    pub enabled: bool,
    /// The directory for recordings; one in the user's cache where none is given.
    pub output_dir: Option<String>,
    /// How long a recording may be, in seconds.
    pub max_duration_secs: Option<u64>,
}

impl Default for RecorderConfig {
    fn default() -> (res: Self)
        ensures
            res.enabled,
            res.output_dir is None,
            res.max_duration_secs is None,
    {
        RecorderConfig { enabled: true, output_dir: None, max_duration_secs: None }
    }
}

/// A recording that is being made.
#[derive(Debug)]
pub struct RecordingInfo {
    pub key: String,
    pub rig_id: String,
    pub vchan_id: Option<String>,
    pub path: String,
    /// When it was begun, in seconds since the Unix epoch.
    pub started_at: i64,
    pub sample_rate: u32,
    pub channels: u8,
}

/// What is said of a recording.
#[verifier::ext_equal]
pub struct RecordingView {
    pub key: Seq<char>,
    pub rig_id: Seq<char>,
    pub vchan_id: Option<Seq<char>>,
    pub path: Seq<char>,
    pub started_at: i64,
    pub sample_rate: u32,
    pub channels: u8,
}

impl View for RecordingInfo {
    type V = RecordingView;

    open spec fn view(&self) -> RecordingView {
        RecordingView {
            key: self.key@,
            rig_id: self.rig_id@,
            vchan_id: opt_view(self.vchan_id),
            path: self.path@,
            started_at: self.started_at,
            sample_rate: self.sample_rate,
            channels: self.channels,
        }
    }
}

impl Clone for RecordingInfo {
    fn clone(&self) -> (res: Self)
        ensures
            res@ == self@,
    {
        RecordingInfo {
            key: self.key.clone(),
            rig_id: self.rig_id.clone(),
            vchan_id: opt_clone(&self.vchan_id),
            path: self.path.clone(),
            started_at: self.started_at,
            sample_rate: self.sample_rate,
            channels: self.channels,
        }
    }
}

/// A recorded file.
#[derive(Debug)]
pub struct RecordedFile {
    pub name: String,
    pub size: u64,
}

/// A request to start recording.
#[derive(Debug)]
pub struct RecorderStartQuery {
    pub remote: Option<String>,
    pub vchan_id: Option<String>,
}

/// A request to stop recording.
#[derive(Debug)]
pub struct RecorderStopQuery {
    pub remote: Option<String>,
    pub vchan_id: Option<String>,
}

// ---------------------------------------------------------------------------------------------
// Names
// ---------------------------------------------------------------------------------------------

/// The key of a recording: the rig, with the virtual channel where it is one's.
pub open spec fn recording_key(rig_id: Seq<char>, vchan_id: Option<Seq<char>>) -> Seq<char> {
    match vchan_id {
        Some(v) => rig_id + ":"@ + v,
        None => rig_id,
    }
}

/// The key of a recording.
pub fn make_key(rig_id: &str, vchan_id: &Option<String>) -> (res: String)
    ensures
        res@ == recording_key(rig_id@, opt_view(*vchan_id)),
{
    match vchan_id {
        Some(v) => join3(rig_id, ":", v.as_str()),
        None => own(rig_id),
    }
}

/// A part of a file name, behind its mark, where there is one.
pub open spec fn name_part(mark: Seq<char>, part: Option<Seq<char>>) -> Seq<char> {
    match part {
        Some(p) => mark + p,
        None => Seq::empty(),
    }
}

/// The name of the file of a recording that is begun at a moment: the rig, the frequency, the mode,
/// the virtual channel and the time.
pub open spec fn recording_name(
    rig_id: Seq<char>,
    vchan_id: Option<Seq<char>>,
    freq_hz: Option<u64>,
    mode: Option<Seq<char>>,
    epoch_secs: nat,
) -> Seq<char> {
    rig_id + name_part(
        "_"@,
        match freq_hz {
            Some(f) => Some(decimal(f as nat)),
            None => None,
        },
    ) + name_part("_"@, mode) + name_part("_vchan-"@, vchan_id) + ("_"@ + timestamp(epoch_secs)
        + ".ogg"@)
}

/// The name of the file of a recording.
pub fn recording_file_name(
    rig_id: &str,
    vchan_id: &Option<String>,
    freq_hz: Option<u64>,
    mode: &Option<String>,
    epoch_secs: u64,
) -> (res: String)
    requires
        epoch_secs / 86400 <= LAST_DAY,
    ensures
        res@ == recording_name(
            rig_id@,
            opt_view(*vchan_id),
            freq_hz,
            opt_view(*mode),
            epoch_secs as nat,
        ),
{
    let mut name = own(rig_id);
    match freq_hz {
        Some(f) => {
            let digits = u64_text(f);
            name = join3(name.as_str(), "_", digits.as_str());
            assert(name@ =~= rig_id@ + ("_"@ + decimal(f as nat)));
        },
        None => {
            assert(name@ =~= rig_id@ + Seq::<char>::empty());
        },
    }
    let ghost with_freq = name@;
    match mode {
        Some(m) => {
            name = join3(name.as_str(), "_", m.as_str());
            assert(name@ =~= with_freq + ("_"@ + m@));
        },
        None => {
            assert(name@ =~= with_freq + Seq::<char>::empty());
        },
    }
    let ghost with_mode = name@;
    match vchan_id {
        Some(v) => {
            name = join3(name.as_str(), "_vchan-", v.as_str());
            assert(name@ =~= with_mode + ("_vchan-"@ + v@));
        },
        None => {
            assert(name@ =~= with_mode + Seq::<char>::empty());
        },
    }
    let time = chrono_timestamp(epoch_secs);
    let tail = join3("_", time.as_str(), ".ogg");
    join2(name.as_str(), tail.as_str())
}

/// Whether a file in the directory is a recording, by its name.
pub fn is_recording_file(name: &str) -> (res: bool)
    ensures
        res == is_recording_name(name@),
{
    ends_with(name, ".ogg") && !str_eq(name, ".ogg")
}

/// Why a file name is not accepted, if it is not: it must not lead out of the directory, and must be
/// that of a recording.
pub open spec fn filename_error(filename: Seq<char>) -> Option<Seq<char>> {
    if filename.contains('/') || filename.contains('\\') || occurs_in(filename, ".."@) {
        Some("invalid filename"@)
    } else if !ends_with_spec(filename, ".ogg"@) {
        Some("only .ogg files are accessible"@)
    } else {
        None
    }
}

/// Accepts the name of a recording, or says why not.
pub fn validate_filename(filename: &str) -> (res: Result<(), String>)
    ensures
        match res {
            Ok(_) => filename_error(filename@) is None,
            Err(m) => filename_error(filename@) == Some(m@),
        },
{
    proof {
        reveal_strlit("/");
        reveal_strlit("\\");
        lemma_single(filename@, '/', "/"@);
        lemma_single(filename@, '\\', "\\"@);
    }
    if contains(filename, "/") || contains(filename, "\\") || contains(filename, "..") {
        return Err(own("invalid filename"));
    }
    if !ends_with(filename, ".ogg") {
        return Err(own("only .ogg files are accessible"));
    }
    Ok(())
}

proof fn lemma_single(s: Seq<char>, c: char, p: Seq<char>)
    requires
        p =~= seq![c],
    ensures
        occurs_in(s, p) == s.contains(c),
{
    if occurs_in(s, p) {
        let i = choose|i: int| occurs_at(s, p, i);
        assert(s.subrange(i, i + 1)[0] == p[0]);
        assert(s[i] == c);
    }
    if s.contains(c) {
        let i = choose|i: int| 0 <= i < s.len() && s[i] == c;
        assert(s.subrange(i, i + 1) =~= p);
        assert(occurs_at(s, p, i));
    }
}

/// Accepts an existing file, or says that it is missing.
pub fn require_file(filename: &str, exists: bool) -> (res: Result<(), String>)
    ensures
        match res {
            Ok(_) => exists,
            Err(m) => !exists && m@ == "file not found: "@ + filename@,
        },
{
    if exists {
        Ok(())
    } else {
        Err(join2("file not found: ", filename))
    }
}

/// An accepted name is that of a file in the directory itself: it holds no separator, and is neither
/// the directory nor the one above.
pub proof fn accepted_names_stay_inside(filename: Seq<char>)
    requires
        filename_error(filename) is None,
    ensures
        !filename.contains('/'),
        !filename.contains('\\'),
        filename != "."@,
        filename != ".."@,
{
    reveal_strlit(".");
    reveal_strlit("..");
    reveal_strlit(".ogg");
    if filename == ".."@ {
        assert(filename.subrange(0, 2) =~= ".."@);
        assert(occurs_at(filename, ".."@, 0));
    }
}

/// Of the recordings of one stream at one frequency and in one mode, the later ones come first in
/// the list: their names are greater, as long as years have four digits.
pub proof fn later_recordings_come_first(
    rig_id: Seq<char>,
    vchan_id: Option<Seq<char>>,
    freq_hz: Option<u64>,
    mode: Option<Seq<char>>,
    earlier: nat,
    later: nat,
)
    requires
        earlier < later,
        has_four_digit_year(later),
    ensures
        text_less(
            recording_name(rig_id, vchan_id, freq_hz, mode, earlier),
            recording_name(rig_id, vchan_id, freq_hz, mode, later),
        ),
{
    let a = recording_name(rig_id, vchan_id, freq_hz, mode, earlier);
    let b = recording_name(rig_id, vchan_id, freq_hz, mode, later);
    let ta = timestamp(earlier);
    let tb = timestamp(later);
    let head = rig_id + name_part(
        "_"@,
        match freq_hz {
            Some(f) => Some(decimal(f as nat)),
            None => None,
        },
    ) + name_part("_"@, mode) + name_part("_vchan-"@, vchan_id) + "_"@;
    timestamps_sort(earlier, later);
    assert(a =~= head + (ta + ".ogg"@));
    assert(b =~= head + (tb + ".ogg"@));
    text_less_behind(ta, tb, ".ogg"@, ".ogg"@);
    text_less_common(head, ta + ".ogg"@, tb + ".ogg"@);
}

/// The names and sizes of files.
pub open spec fn file_views(files: Seq<RecordedFile>) -> Seq<(Seq<char>, u64)> {
    files.map_values(|f: RecordedFile| (f.name@, f.size))
}

/// Whether a file is a recording, by its name.
pub open spec fn is_recording_name(name: Seq<char>) -> bool {
    ends_with_spec(name, ".ogg"@) && name != ".ogg"@
}

/// The recordings among files.
pub open spec fn recordings_among(files: Seq<(Seq<char>, u64)>) -> Seq<(Seq<char>, u64)> {
    files.filter(|f: (Seq<char>, u64)| is_recording_name(f.0))
}

/// The order of files: by name, descending.
pub open spec fn name_less(files: Seq<(Seq<char>, u64)>) -> spec_fn(int, int) -> bool {
    |a: int, b: int| text_less(files[b].0, files[a].0)
}

/// The recordings among the files of the directory, as they are listed: by name, the last first.
pub fn list_files(files: Vec<RecordedFile>) -> (res: Vec<RecordedFile>)
    ensures
        ({
            let kept = recordings_among(file_views(files@));
            exists|ord: Seq<usize>| #[trigger]
                is_stable_order(name_less(kept), kept.len() as int, ord) && file_views(res@)
                    == Seq::new(kept.len(), |i: int| kept[ord[i] as int])
        }),
{
    let ghost fv = file_views(files@);
    let mut kept: Vec<RecordedFile> = Vec::new();
    let mut names: Vec<String> = Vec::new();
    let mut i: usize = 0;
    proof {
        reveal(Seq::filter);
        assert(file_views(kept@) =~= recordings_among(fv.take(0)));
    }
    while i < files.len()
        invariant
            i <= files@.len(),
            fv == file_views(files@),
            file_views(kept@) == recordings_among(fv.take(i as int)),
            names@.len() == kept@.len(),
            forall|j: int| 0 <= j < names@.len() ==> (#[trigger] names@[j])@ == kept@[j].name@,
        decreases files@.len() - i,
    {
        let ghost before = file_views(kept@);
        let f = &files[i];
        proof {
            reveal(Seq::filter);
            assert(fv.take(i + 1).drop_last() =~= fv.take(i as int));
            assert(fv.take(i + 1).last() == (f.name@, f.size));
        }
        if is_recording_file(f.name.as_str()) {
            names.push(f.name.clone());
            kept.push(RecordedFile { name: f.name.clone(), size: f.size });
            assert(file_views(kept@) =~= before.push((f.name@, f.size)));
        }
        i = i + 1;
    }
    let ghost kv = file_views(kept@);
    assert(fv.take(fv.len() as int) =~= fv);
    let ord = order_by_text(&names, true);
    proof {
        lemma_same_order(names@, kv, ord@);
    }
    let mut out: Vec<RecordedFile> = Vec::new();
    let mut k: usize = 0;
    while k < ord.len()
        invariant
            k <= ord@.len(),
            ord@.len() == kept@.len(),
            kv == file_views(kept@),
            forall|j: int| 0 <= j < ord@.len() ==> 0 <= #[trigger] ord@[j] < kept@.len(),
            file_views(out@) == Seq::new(k as nat, |j: int| kv[ord@[j] as int]),
        decreases ord@.len() - k,
    {
        let ghost before = file_views(out@);
        let f = &kept[ord[k]];
        out.push(RecordedFile { name: f.name.clone(), size: f.size });
        assert(kv[ord@[k as int] as int] == (f.name@, f.size));
        k = k + 1;
        assert(file_views(out@) =~= before.push((f.name@, f.size)));
        assert(file_views(out@) =~= Seq::new(k as nat, |j: int| kv[ord@[j] as int]));
    }
    out
}

proof fn lemma_same_order(names: Seq<String>, files: Seq<(Seq<char>, u64)>, ord: Seq<usize>)
    requires
        names.len() == files.len(),
        forall|j: int| 0 <= j < names.len() ==> (#[trigger] names[j])@ == files[j].0,
        is_stable_order(text_key_less(names, true), names.len() as int, ord),
    ensures
        is_stable_order(name_less(files), files.len() as int, ord),
{
    let n = files.len() as int;
    let less = text_key_less(names, true);
    let other = name_less(files);
    assert forall|i: int, j: int| 0 <= i < j < n implies goes_before(
        other,
        #[trigger] ord[i] as int,
        #[trigger] ord[j] as int,
    ) by {
        let a = ord[i] as int;
        let b = ord[j] as int;
        assert(goes_before(less, a, b));
        assert(names[a]@ == files[a].0);
        assert(names[b]@ == files[b].0);
        assert(less(a, b) == other(a, b));
        assert(less(b, a) == other(b, a));
    }
}

// ---------------------------------------------------------------------------------------------
// The recordings being made
// ---------------------------------------------------------------------------------------------

/// The recordings that are being made, by key.
#[derive(Debug)]
pub struct RecorderManager {
    pub recordings: Table<RecordingInfo>,
    pub config: RecorderConfig,
}

impl RecorderManager {
    /// No recording is made twice.
    pub open spec fn wf(&self) -> bool {
        self.recordings.wf()
    }

    /// Whether a recording is being made.
    pub open spec fn is_active(&self, rig_id: Seq<char>, vchan_id: Option<Seq<char>>) -> bool {
        self.recordings@.contains_key(recording_key(rig_id, vchan_id))
    }

    /// Nothing is being recorded.
    pub fn new(config: RecorderConfig) -> (res: Self)
        ensures
            res.wf(),
            res.recordings@ == Map::<Seq<char>, RecordingInfo>::empty(),
            res.config == config,
    {
        RecorderManager { recordings: Table::new(), config }
    }

    /// Starts a recording to the file. The recorder must be enabled, and the stream must not be
    /// being recorded.
    pub fn start(
        &mut self,
        rig_id: &str,
        vchan_id: &Option<String>,
        params: AudioParams,
        path: &str,
        started_at: i64,
    ) -> (res: Result<RecordingInfo, String>)
        requires
            old(self).wf(),
        ensures
            final(self).wf(),
            final(self).config == old(self).config,
            ({
                let key = recording_key(rig_id@, opt_view(*vchan_id));
                if !old(self).config.enabled {
                    &&& res matches Err(m) && m@ == "recorder is disabled"@
                    &&& final(self).recordings@ == old(self).recordings@
                } else if old(self).recordings@.contains_key(key) {
                    &&& res matches Err(m) && m@ == "already recording: "@ + key
                    &&& final(self).recordings@ == old(self).recordings@
                } else {
                    &&& res matches Ok(info) && info@ == (RecordingView {
                        key,
                        rig_id: rig_id@,
                        vchan_id: opt_view(*vchan_id),
                        path: path@,
                        started_at,
                        sample_rate: params.sample_rate,
                        channels: params.channels,
                    }) && final(self).recordings@.contains_key(key) && final(self).recordings@[key]@
                        == info@
                    &&& final(self).recordings@.remove(key) == old(self).recordings@
                }
            }),
    {
        if !self.config.enabled {
            return Err(own("recorder is disabled"));
        }
        let key = make_key(rig_id, vchan_id);
        if self.recordings.contains_key(key.as_str()) {
            return Err(join2("already recording: ", key.as_str()));
        }
        let info = RecordingInfo {
            key: key.clone(),
            rig_id: own(rig_id),
            vchan_id: opt_clone(vchan_id),
            path: own(path),
            started_at,
            sample_rate: params.sample_rate,
            channels: params.channels,
        };
        self.recordings.insert(key.as_str(), info.clone());
        assert(self.recordings@.remove(key@) =~= old(self).recordings@);
        Ok(info)
    }

    /// Takes a recording out. What the task that makes it has to say is for [`stop_outcome`].
    pub fn stop(&mut self, rig_id: &str, vchan_id: &Option<String>) -> (res: Result<
        RecordingInfo,
        String,
    >)
        requires
            old(self).wf(),
        ensures
            final(self).wf(),
            final(self).config == old(self).config,
            ({
                let key = recording_key(rig_id@, opt_view(*vchan_id));
                &&& final(self).recordings@ == old(self).recordings@.remove(key)
                &&& if old(self).recordings@.contains_key(key) {
                    res == Ok::<RecordingInfo, String>(old(self).recordings@[key])
                } else {
                    res matches Err(m) && m@ == "no active recording: "@ + key
                }
            }),
    {
        let key = make_key(rig_id, vchan_id);
        match self.recordings.remove(key.as_str()) {
            Some(info) => Ok(info),
            None => Err(join2("no active recording: ", key.as_str())),
        }
    }

    /// Whether the stream is being recorded.
    pub fn is_recording(&self, rig_id: &str, vchan_id: &Option<String>) -> (res: bool)
        requires
            self.wf(),
        ensures
            res == self.is_active(rig_id@, opt_view(*vchan_id)),
    {
        let key = make_key(rig_id, vchan_id);
        self.recordings.contains_key(key.as_str())
    }

    /// The recordings being made, in the order in which they were started.
    pub fn list_active(&self) -> (res: Vec<RecordingInfo>)
        ensures
            res@.len() == self.recordings.entries@.len(),
            forall|i: int|
                0 <= i < res@.len() ==> (#[trigger] res@[i])@ == self.recordings.entries@[i].1@,
    {
        let mut out: Vec<RecordingInfo> = Vec::new();
        let mut i: usize = 0;
        while i < self.recordings.entries.len()
            invariant
                i <= self.recordings.entries@.len(),
                out@.len() == i,
                forall|j: int|
                    0 <= j < i ==> (#[trigger] out@[j])@ == self.recordings.entries@[j].1@,
            decreases self.recordings.entries@.len() - i,
        {
            out.push(self.recordings.entries[i].1.clone());
            i = i + 1;
        }
        out
    }

    /// Whether any stream of a rig is being recorded.
    pub open spec fn is_recorded(&self, rig_id: Seq<char>) -> bool {
        exists|i: int|
            0 <= i < self.recordings.entries@.len() && (#[trigger] self.recordings.entries@[i]).1.rig_id@
                == rig_id
    }

    /// Whether any stream of the rig is being recorded.
    pub fn records_rig(&self, rig_id: &str) -> (res: bool)
        ensures
            res == self.is_recorded(rig_id@),
    {
        let mut i: usize = 0;
        while i < self.recordings.entries.len()
            invariant
                i <= self.recordings.entries@.len(),
                forall|j: int|
                    0 <= j < i ==> (#[trigger] self.recordings.entries@[j]).1.rig_id@ != rig_id@,
            decreases self.recordings.entries@.len() - i,
        {
            if str_eq(self.recordings.entries[i].1.rig_id.as_str(), rig_id) {
                return true;
            }
            i = i + 1;
        }
        false
    }

    /// What the rig is told after a recording of it was stopped: that nothing records it any more,
    /// where that is so.
    pub fn stopped_command(&self, rig_id: &str) -> (res: Option<RigCommand>)
        ensures
            match res {
                Some(cmd) => !self.is_recorded(rig_id@) && cmd@ == CommandView::SetRecorderEnabled(
                    false,
                ),
                None => self.is_recorded(rig_id@),
            },
    {
        if self.records_rig(rig_id) {
            None
        } else {
            Some(RigCommand::SetRecorderEnabled(false))
        }
    }
}

/// What a finished recording came to.
#[derive(Debug)]
pub struct RecordingResult {
    pub key: String,
    pub path: String,
    /// How long it is, in nanoseconds.
    pub duration_ns: u64,
    pub bytes_written: u64,
}

/// How the task that makes a recording ended.
#[derive(Debug)]
pub enum TaskEnd {
    Finished(RecordingResult),
    /// No file could be made.
    NoFile,
    /// The task broke off, with the error's text.
    Broken(String),
}

/// What the user is told of a stopped recording.
pub fn stop_outcome(end: TaskEnd) -> (res: Result<RecordingResult, String>)
    ensures
        match end {
            TaskEnd::Finished(r) => res == Ok::<RecordingResult, String>(r),
            TaskEnd::NoFile => res matches Err(m) && m@ == "recording failed"@,
            TaskEnd::Broken(e) => res matches Err(m) && m@ == "recorder task panicked: "@ + e@,
        },
{
    match end {
        TaskEnd::Finished(r) => Ok(r),
        TaskEnd::NoFile => Err(own("recording failed")),
        TaskEnd::Broken(e) => Err(join2("recorder task panicked: ", e.as_str())),
    }
}

// ---------------------------------------------------------------------------------------------
// The task that makes a recording
// ---------------------------------------------------------------------------------------------

/// What reaches the task.
#[derive(Debug)]
pub enum RecorderEvent {
    Packet(Vec<u8>),
    /// Packets were dropped.
    Lagged,
    /// The stream has ended.
    Closed,
    /// The user wants to stop.
    Stopped,
}

/// What the task does.
#[derive(Debug)]
pub enum RecorderAction {
    Write(Vec<u8>),
    Wait,
    Finish,
}

/// Whether the task goes on to wait for a packet: nobody has asked it to stop, and the recording is
/// not as long as it may be.
pub fn keeps_recording(stop: bool, elapsed_ms: u64, max_duration_secs: Option<u64>) -> (res: bool)
    ensures
        res == (!stop && match max_duration_secs {
            Some(max) => elapsed_ms < max * 1000,
            None => true,
        }),
        res == goes_on(stop, elapsed_ms, max_duration_secs),
{
    if stop {
        return false;
    }
    match max_duration_secs {
        Some(max) => (elapsed_ms as u128) < max as u128 * 1000,
        None => true,
    }
}

/// What the task does with what reached it.
pub fn recorder_action(event: RecorderEvent) -> (res: RecorderAction)
    ensures
        res == (match event {
            RecorderEvent::Packet(data) => RecorderAction::Write(data),
            RecorderEvent::Lagged => RecorderAction::Wait,
            RecorderEvent::Closed => RecorderAction::Finish,
            RecorderEvent::Stopped => RecorderAction::Finish,
        }),
{
    match event {
        RecorderEvent::Packet(data) => RecorderAction::Write(data),
        RecorderEvent::Lagged => RecorderAction::Wait,
        RecorderEvent::Closed => RecorderAction::Finish,
        RecorderEvent::Stopped => RecorderAction::Finish,
    }
}

// ---------------------------------------------------------------------------------------------
// Requests
// ---------------------------------------------------------------------------------------------

/// The rig that a request is about: the one it names, or else the selected one.
pub fn resolve_rig_id(remote: &Option<String>, active_rig_id: &Option<String>) -> (res: String)
    ensures
        res@ == (match opt_view(*remote) {
            Some(r) => r,
            None => match opt_view(*active_rig_id) {
                Some(r) => r,
                None => "default"@,
            },
        }),
{
    match remote {
        Some(r) => r.clone(),
        None => match active_rig_id {
            Some(r) => r.clone(),
            None => own("default"),
        },
    }
}

/// The parameters of a rig's stream: its own, or else those of the default stream.
pub fn stream_info_for_rig(rig: Option<AudioParams>, default_info: Option<AudioParams>) -> (res:
    AudioParams)
    ensures
        res == (match rig {
            Some(p) => p,
            None => match default_info {
                Some(p) => p,
                None => AudioParams { sample_rate: 48000, channels: 2, frame_duration_ms: 20 },
            },
        }),
{
    match rig {
        Some(p) => p,
        None => match default_info {
            Some(p) => p,
            None => AudioParams { sample_rate: 48000, channels: 2, frame_duration_ms: 20 },
        },
    }
}

/// Where the audio of a recording comes from.
#[derive(Clone, Copy, Debug, PartialEq, Eq, Structural)]
pub enum AudioSource {
    VirtualChannel(u128),
    Rig,
    DefaultStream,
}

/// Why there is no audio to record.
#[derive(Clone, Copy, Debug, PartialEq, Eq, Structural)]
pub enum SourceError {
    InvalidChannelId,
    ChannelNotFound,
    NoSource,
}

impl SourceError {
    /// The status code of the answer.
    pub fn status_code(&self) -> (res: u16)
        ensures
            res == (match self {
                SourceError::InvalidChannelId => 400u16,
                _ => 404u16,
            }),
    {
        match self {
            SourceError::InvalidChannelId => 400,
            _ => 404,
        }
    }

    /// The text of the answer.
    pub fn message(&self) -> (res: &'static str)
        ensures
            res@ == (match self {
                SourceError::InvalidChannelId => "invalid vchan_id UUID"@,
                SourceError::ChannelNotFound => "vchan audio not found"@,
                SourceError::NoSource => "no audio source for rig"@,
            }),
    {
        match self {
            SourceError::InvalidChannelId => "invalid vchan_id UUID",
            SourceError::ChannelNotFound => "vchan audio not found",
            SourceError::NoSource => "no audio source for rig",
        }
    }
}

/// Where the audio comes from: the virtual channel of the request, given what its id was read as, or
/// else the rig's own stream, or else the default one.
pub open spec fn source_of(
    channel: Option<Option<u128>>,
    channels: Map<u128, ()>,
    rig_has_stream: bool,
    has_default: bool,
) -> Result<AudioSource, SourceError> {
    match channel {
        Some(None) => Err(SourceError::InvalidChannelId),
        Some(Some(id)) => if channels.contains_key(id) {
            Ok(AudioSource::VirtualChannel(id))
        } else {
            Err(SourceError::ChannelNotFound)
        },
        None => if rig_has_stream {
            Ok(AudioSource::Rig)
        } else if has_default {
            Ok(AudioSource::DefaultStream)
        } else {
            Err(SourceError::NoSource)
        },
    }
}

/// Where the audio comes from, given what the id of the virtual channel was read as.
pub fn choose_audio_source(
    channel: Option<Option<u128>>,
    channels: &IdTable<()>,
    rig_has_stream: bool,
    has_default: bool,
) -> (res: Result<AudioSource, SourceError>)
    requires
        channels.wf(),
    ensures
        res == source_of(channel, channels@, rig_has_stream, has_default),
{
    match channel {
        Some(None) => Err(SourceError::InvalidChannelId),
        Some(Some(id)) => if channels.contains_key(id) {
            Ok(AudioSource::VirtualChannel(id))
        } else {
            Err(SourceError::ChannelNotFound)
        },
        None => if rig_has_stream {
            Ok(AudioSource::Rig)
        } else if has_default {
            Ok(AudioSource::DefaultStream)
        } else {
            Err(SourceError::NoSource)
        },
    }
}

/// Where the audio of a request comes from.
pub fn resolve_audio_source(
    vchan_id: &Option<String>,
    channels: &IdTable<()>,
    rig_has_stream: bool,
    has_default: bool,
) -> (res: Result<AudioSource, SourceError>)
    requires
        channels.wf(),
    ensures
        res == source_of(
            match opt_view(*vchan_id) {
                Some(id) => Some(uuid_named(id)),
                None => None,
            },
            channels@,
            rig_has_stream,
            has_default,
        ),
{
    let channel = match vchan_id {
        Some(id) => Some(parse_uuid(id.as_str())),
        None => None,
    };
    choose_audio_source(channel, channels, rig_has_stream, has_default)
}

// ---------------------------------------------------------------------------------------------
// What a recording comes to
// ---------------------------------------------------------------------------------------------

/// What a recording is told by is all of its fields, and a file by its name and size.
pub proof fn recordings_in_full(r: RecordingInfo, files: Seq<RecordedFile>, i: int)
    ensures
        r@.key == r.key@,
        r@.rig_id == r.rig_id@,
        r@.vchan_id == opt_view(r.vchan_id),
        r@.path == r.path@,
        r@.started_at == r.started_at,
        r@.sample_rate == r.sample_rate,
        r@.channels == r.channels,
        file_views(files).len() == files.len(),
        0 <= i < files.len() ==> file_views(files)[i] == (files[i].name@, files[i].size),
{
}

/// A rig is recorded under its id, and a channel of it under the id of the rig, a colon and its own.
pub proof fn keys_of_recordings(rig_id: Seq<char>, vchan_id: Seq<char>, other: Seq<char>)
    ensures
        recording_key(rig_id, None) == rig_id,
        recording_key(rig_id, Some(vchan_id)) == rig_id + seq![':'] + vchan_id,
        recording_key(rig_id, Some(vchan_id)) == recording_key(rig_id, Some(other)) <==> vchan_id
            == other,
        recording_key(rig_id, Some(vchan_id)) != recording_key(rig_id, None),
{
    reveal_strlit(":");
    assert(":"@ =~= seq![':']);
    let a = rig_id + seq![':'] + vchan_id;
    let b = rig_id + seq![':'] + other;
    assert(a.skip(rig_id.len() as int + 1) =~= vchan_id);
    assert(b.skip(rig_id.len() as int + 1) =~= other);
    assert(a.len() > rig_id.len());
}

/// The name of a recording has the rig, the frequency, the mode and the channel, as far as they are
/// known, and then the moment.
pub proof fn names_of_recordings(
    rig_id: Seq<char>,
    vchan_id: Seq<char>,
    freq_hz: u64,
    mode: Seq<char>,
    epoch_secs: nat,
)
    ensures
        recording_name(rig_id, None, None, None, epoch_secs) == rig_id + "_"@ + timestamp(epoch_secs)
            + ".ogg"@,
        recording_name(rig_id, None, Some(freq_hz), None, epoch_secs) == rig_id + "_"@ + decimal(
            freq_hz as nat,
        ) + "_"@ + timestamp(epoch_secs) + ".ogg"@,
        recording_name(rig_id, None, Some(freq_hz), Some(mode), epoch_secs) == rig_id + "_"@
            + decimal(freq_hz as nat) + "_"@ + mode + "_"@ + timestamp(epoch_secs) + ".ogg"@,
        recording_name(rig_id, Some(vchan_id), Some(freq_hz), Some(mode), epoch_secs) == rig_id
            + "_"@ + decimal(freq_hz as nat) + "_"@ + mode + "_vchan-"@ + vchan_id + "_"@ + timestamp(
            epoch_secs,
        ) + ".ogg"@,
        recording_name(rig_id, Some(vchan_id), None, None, epoch_secs) == rig_id + "_vchan-"@
            + vchan_id + "_"@ + timestamp(epoch_secs) + ".ogg"@,
{
    assert(recording_name(rig_id, None, None, None, epoch_secs) =~= rig_id + "_"@ + timestamp(
        epoch_secs,
    ) + ".ogg"@);
    assert(recording_name(rig_id, None, Some(freq_hz), None, epoch_secs) =~= rig_id + "_"@ + decimal(
        freq_hz as nat,
    ) + "_"@ + timestamp(epoch_secs) + ".ogg"@);
    assert(recording_name(rig_id, None, Some(freq_hz), Some(mode), epoch_secs) =~= rig_id + "_"@
        + decimal(freq_hz as nat) + "_"@ + mode + "_"@ + timestamp(epoch_secs) + ".ogg"@);
    assert(recording_name(rig_id, Some(vchan_id), Some(freq_hz), Some(mode), epoch_secs) =~= rig_id
        + "_"@ + decimal(freq_hz as nat) + "_"@ + mode + "_vchan-"@ + vchan_id + "_"@ + timestamp(
        epoch_secs,
    ) + ".ogg"@);
    assert(recording_name(rig_id, Some(vchan_id), None, None, epoch_secs) =~= rig_id + "_vchan-"@
        + vchan_id + "_"@ + timestamp(epoch_secs) + ".ogg"@);
}

/// A file can be asked for where its name is that of an Ogg file and cannot lead elsewhere.
pub proof fn files_that_can_be_asked_for(filename: Seq<char>)
    ensures
        filename_error(filename) is None <==> !filename.contains('/') && !filename.contains('\\')
            && !occurs_in(filename, ".."@) && ends_with_spec(filename, ".ogg"@),
        filename.contains('/') || filename.contains('\\') || occurs_in(filename, ".."@)
            ==> filename_error(filename) == Some("invalid filename"@),
        !filename.contains('/') && !filename.contains('\\') && !occurs_in(filename, ".."@)
            && !ends_with_spec(filename, ".ogg"@) ==> filename_error(filename) == Some(
            "only .ogg files are accessible"@,
        ),
{
}

/// A recording is a file whose name ends in `.ogg` and has something before it. Other files are not
/// listed.
pub proof fn files_that_are_recordings(
    files: Seq<(Seq<char>, u64)>,
    stem: Seq<char>,
    name: Seq<char>,
    f: (Seq<char>, u64),
)
    ensures
        is_recording_name(stem + ".ogg"@) <==> stem.len() > 0,
        is_recording_name(name) ==> exists|s: Seq<char>| s.len() > 0 && name == #[trigger] (s
            + ".ogg"@),
        recordings_among(files).contains(f) <==> files.contains(f) && is_recording_name(f.0),
{
    parts_are_found(stem, ".ogg"@, Seq::empty());
    if stem.len() > 0 {
        assert((stem + ".ogg"@).len() > ".ogg"@.len());
    } else {
        assert(stem + ".ogg"@ =~= ".ogg"@);
    }
    found_parts_are_there(name, ".ogg"@);
    if is_recording_name(name) {
        let s = choose|a: Seq<char>| name == #[trigger] (a + ".ogg"@);
        if s.len() == 0 {
            assert(s + ".ogg"@ =~= ".ogg"@);
        }
    }
    let pred = |f: (Seq<char>, u64)| is_recording_name(f.0);
    if recordings_among(files).contains(f) {
        let i = choose|i: int| 0 <= i < files.filter(pred).len() && files.filter(pred)[i] == f;
        files.lemma_filter_pred(pred, i);
        files.lemma_filter_contains_rev(pred, f);
    }
    if files.contains(f) && is_recording_name(f.0) {
        let i = choose|i: int| 0 <= i < files.len() && files[i] == f;
        files.lemma_filter_contains(pred, i);
    }
}

/// The list of the recordings does not rise: what comes later in the alphabet stands first.
pub proof fn later_names_stand_first(
    files: Seq<(Seq<char>, u64)>,
    ord: Seq<usize>,
    i: int,
    j: int,
)
    requires
        is_stable_order(name_less(files), files.len() as int, ord),
        0 <= i < j < ord.len(),
    ensures
        !text_less(files[ord[i] as int].0, files[ord[j] as int].0),
{
    let (a, b) = (files[ord[i] as int].0, files[ord[j] as int].0);
    assert(goes_before(name_less(files), ord[i] as int, ord[j] as int));
    if text_less(a, b) && text_less(b, a) {
        text_less_transitive(a, b, a);
        text_less_irreflexive(a);
    }
}

/// A rig counts as recorded while one of the recordings is of it.
pub proof fn rigs_that_are_recorded(
    manager: RecorderManager,
    rig_id: Seq<char>,
    vchan_id: Option<Seq<char>>,
    i: int,
)
    ensures
        0 <= i < manager.recordings.entries@.len() && manager.recordings.entries@[i].1.rig_id@
            == rig_id ==> manager.is_recorded(rig_id),
        (forall|j: int|
            0 <= j < manager.recordings.entries@.len() ==> (
            #[trigger] manager.recordings.entries@[j]).1.rig_id@ != rig_id) ==> !manager.is_recorded(
            rig_id,
        ),
        manager.is_active(rig_id, vchan_id) <==> manager.recordings@.contains_key(
            recording_key(rig_id, vchan_id),
        ),
{
}

/// A channel that is asked for is recorded or nothing is. Without one the rig's own stream is taken,
/// and the common one where the rig has none.
pub proof fn sources_of_recordings(
    id: u128,
    channels: Map<u128, ()>,
    rig_has_stream: bool,
    has_default: bool,
)
    ensures
        source_of(Some(None), channels, rig_has_stream, has_default) == Err::<
            AudioSource,
            SourceError,
        >(SourceError::InvalidChannelId),
        channels.contains_key(id) ==> source_of(
            Some(Some(id)),
            channels,
            rig_has_stream,
            has_default,
        ) == Ok::<AudioSource, SourceError>(AudioSource::VirtualChannel(id)),
        !channels.contains_key(id) ==> source_of(
            Some(Some(id)),
            channels,
            rig_has_stream,
            has_default,
        ) == Err::<AudioSource, SourceError>(SourceError::ChannelNotFound),
        source_of(None, channels, true, has_default) == Ok::<AudioSource, SourceError>(
            AudioSource::Rig,
        ),
        source_of(None, channels, false, true) == Ok::<AudioSource, SourceError>(
            AudioSource::DefaultStream,
        ),
        source_of(None, channels, false, false) == Err::<AudioSource, SourceError>(
            SourceError::NoSource,
        ),
{
}

/// Whether a recording goes on: it is not stopped, and its seconds have not passed.
pub open spec fn goes_on(stop: bool, elapsed_ms: u64, max_duration_secs: Option<u64>) -> bool {
    !stop && match max_duration_secs {
        Some(max) => elapsed_ms < max * 1000,
        None => true,
    }
}

/// A recording that is stopped does not go on. One that is not goes on until as many seconds have
/// passed as it may take, and without end where it may take any; once ended it stays so.
pub proof fn recordings_end_in_time(elapsed_ms: u64, later_ms: u64, max: u64, stop: bool)
    ensures
        !goes_on(true, elapsed_ms, Some(max)),
        !goes_on(true, elapsed_ms, None),
        goes_on(false, elapsed_ms, None),
        elapsed_ms as int / 1000 < max ==> goes_on(false, elapsed_ms, Some(max)),
        elapsed_ms as int / 1000 >= max ==> !goes_on(false, elapsed_ms, Some(max)),
        elapsed_ms <= later_ms && !goes_on(stop, elapsed_ms, Some(max)) ==> !goes_on(
            stop,
            later_ms,
            Some(max),
        ),
{
}

} // verus!
