//! Carrying out what the scheduler has chosen: commands, status, and what is already tuned.
use vstd::prelude::*;

use crate::bookmarks::{Bookmark, BookmarkStoreMap, BookmarkView};
use crate::commands::{command_views, CommandView, Decoder, RigCommand};
use crate::decoders::{
    decoder_name, decoders_are_named_without_case, mode_is, names_decoder, wants_decoder,
};
use crate::scheduler::{
    entry_target, same_target, scheduled, scheduled_target, AppliedTarget, AppliedTargetView,
    Moment, ScheduleEntry, ScheduledTarget, ScheduledTargetView, SchedulerConfig, SchedulerMode,
};
use crate::table::Table;
use crate::text::{
    join3, list_clone, list_view, lowered, opt_clone, opt_view, own, str_eq, trim, trimmed,
};

verus! {

// ---------------------------------------------------------------------------------------------
// Commands
// ---------------------------------------------------------------------------------------------

/// The bookmarks that there are for the ids, in order; ids without one are left out.
pub open spec fn found_bookmarks(
    stores: BookmarkStoreMap,
    remote: Seq<char>,
    ids: Seq<Seq<char>>,
) -> Seq<BookmarkView>
    decreases ids.len(),
{
    if ids.len() == 0 {
        Seq::empty()
    } else {
        let before = found_bookmarks(stores, remote, ids.drop_last());
        match stores.found_for_rig(remote, ids.last()) {
            Some(b) => before.push(b),
            None => before,
        }
    }
}

fn find_bookmarks(stores: &BookmarkStoreMap, remote: &str, ids: &Vec<String>) -> (res: Vec<Bookmark>)
    requires
        stores.wf(),
    ensures
        res@.map_values(|b: Bookmark| b@) == found_bookmarks(*stores, remote@, list_view(ids@)),
{
    let ghost view = |b: Bookmark| b@;
    let ghost iv = list_view(ids@);
    let mut out: Vec<Bookmark> = Vec::new();
    let mut i: usize = 0;
    assert(out@.map_values(view) =~= found_bookmarks(*stores, remote@, iv.take(0)));
    while i < ids.len()
        invariant
            i <= ids@.len(),
            iv == list_view(ids@),
            stores.wf(),
            view == |b: Bookmark| b@,
            out@.map_values(view) == found_bookmarks(*stores, remote@, iv.take(i as int)),
        decreases ids@.len() - i,
    {
        let ghost before = out@.map_values(view);
        assert(iv.take(i + 1).drop_last() =~= iv.take(i as int));
        assert(iv.take(i + 1).last() == ids@[i as int]@);
        match stores.get_for_rig(remote, ids[i].as_str()) {
            Some(b) => {
                out.push(b);
                assert(out@.map_values(view) =~= before.push(b@));
            },
            None => {},
        }
        i = i + 1;
    }
    assert(iv.take(i as int) =~= iv);
    out
}

/// The commands that tune a rig to a bookmark.
pub open spec fn tune_commands(center_hz: Option<u64>, b: BookmarkView) -> Seq<CommandView> {
    let center = match center_hz {
        Some(hz) => seq![CommandView::SetCenterFreq(hz)],
        None => Seq::empty(),
    };
    let width = match b.bandwidth_hz {
        Some(hz) => if 0 < hz <= u32::MAX {
            seq![CommandView::SetBandwidth(hz as u32)]
        } else {
            Seq::empty()
        },
        None => Seq::empty(),
    };
    center + seq![CommandView::SetFreq(b.freq_hz), CommandView::SetMode(b.mode)] + width
}

fn tune_to(center_hz: Option<u64>, b: &Bookmark) -> (res: Vec<RigCommand>)
    ensures
        command_views(res@) == tune_commands(center_hz, b@),
{
    let mut out: Vec<RigCommand> = Vec::new();
    match center_hz {
        Some(hz) => {
            out.push(RigCommand::SetCenterFreq(hz));
        },
        None => {},
    }
    out.push(RigCommand::SetFreq(b.freq_hz));
    out.push(RigCommand::SetMode(b.mode.clone()));
    match b.bandwidth_hz {
        Some(hz) => {
            if hz > 0 && hz <= u32::MAX as u64 {
                out.push(RigCommand::SetBandwidth(hz as u32));
            }
        },
        None => {},
    }
    assert(command_views(out@) =~= tune_commands(center_hz, b@));
    out
}

/// Whether one of the bookmarks names the decoder.
pub open spec fn any_names(list: Seq<BookmarkView>, kind: Seq<char>) -> bool {
    exists|i: int| 0 <= i < list.len() && names_decoder((#[trigger] list[i]).decoders, kind)
}

fn any_wants(primary: &Bookmark, extras: &Vec<Bookmark>, kind: &str) -> (res: bool)
    ensures
        res == any_names(seq![primary@] + extras@.map_values(|b: Bookmark| b@), kind@),
{
    let ghost list = seq![primary@] + extras@.map_values(|b: Bookmark| b@);
    if wants_decoder(&primary.decoders, kind) {
        assert(list[0] == primary@);
        return true;
    }
    let mut i: usize = 0;
    while i < extras.len()
        invariant
            i <= extras@.len(),
            list == seq![primary@] + extras@.map_values(|b: Bookmark| b@),
            forall|j: int| 0 <= j <= i ==> !names_decoder((#[trigger] list[j]).decoders, kind@),
        decreases extras@.len() - i,
    {
        assert(list[i + 1] == extras@[i as int]@);
        if wants_decoder(&extras[i].decoders, kind) {
            return true;
        }
        i = i + 1;
    }
    false
}

/// The commands that switch the decoders for a bookmark and those received beside it: on where one
/// of them names the decoder, and off otherwise. A packet bookmark wants APRS.
pub open spec fn scheduler_decoder_commands(
    primary: BookmarkView,
    extras: Seq<BookmarkView>,
) -> Seq<CommandView> {
    let all = seq![primary] + extras;
    seq![
        CommandView::SetDecode {
            decoder: Decoder::Aprs,
            enabled: decoder_name(primary.mode) == "pkt"@ || any_names(all, "aprs"@),
        },
        CommandView::SetDecode { decoder: Decoder::HfAprs, enabled: any_names(all, "hf-aprs"@) },
        CommandView::SetDecode { decoder: Decoder::Ft8, enabled: any_names(all, "ft8"@) },
        CommandView::SetDecode { decoder: Decoder::Ft4, enabled: any_names(all, "ft4"@) },
        CommandView::SetDecode { decoder: Decoder::Ft2, enabled: any_names(all, "ft2"@) },
        CommandView::SetDecode { decoder: Decoder::Wspr, enabled: any_names(all, "wspr"@) },
        CommandView::SetDecode {
            decoder: Decoder::Wxsat,
            enabled: any_names(all, "wxsat"@) || any_names(all, "noaa"@) || any_names(all, "apt"@),
        },
        CommandView::SetDecode {
            decoder: Decoder::Lrpt,
            enabled: any_names(all, "lrpt"@) || any_names(all, "meteor"@),
        },
    ]
}

/// The commands that switch the decoders for a bookmark and those received beside it.
pub fn apply_scheduler_decoders(primary: &Bookmark, extras: &Vec<Bookmark>) -> (res: Vec<
    RigCommand,
>)
    ensures
        command_views(res@) == scheduler_decoder_commands(
            primary@,
            extras@.map_values(|b: Bookmark| b@),
        ),
{
    let mut out: Vec<RigCommand> = Vec::new();
    let aprs = mode_is(primary.mode.as_str(), "pkt") || any_wants(primary, extras, "aprs");
    let hf_aprs = any_wants(primary, extras, "hf-aprs");
    let ft8 = any_wants(primary, extras, "ft8");
    let ft4 = any_wants(primary, extras, "ft4");
    let ft2 = any_wants(primary, extras, "ft2");
    let wspr = any_wants(primary, extras, "wspr");
    let wxsat = any_wants(primary, extras, "wxsat") || any_wants(primary, extras, "noaa")
        || any_wants(primary, extras, "apt");
    let lrpt = any_wants(primary, extras, "lrpt") || any_wants(primary, extras, "meteor");
    out.push(RigCommand::SetDecode { decoder: Decoder::Aprs, enabled: aprs });
    out.push(RigCommand::SetDecode { decoder: Decoder::HfAprs, enabled: hf_aprs });
    out.push(RigCommand::SetDecode { decoder: Decoder::Ft8, enabled: ft8 });
    out.push(RigCommand::SetDecode { decoder: Decoder::Ft4, enabled: ft4 });
    out.push(RigCommand::SetDecode { decoder: Decoder::Ft2, enabled: ft2 });
    out.push(RigCommand::SetDecode { decoder: Decoder::Wspr, enabled: wspr });
    out.push(RigCommand::SetDecode { decoder: Decoder::Wxsat, enabled: wxsat });
    out.push(RigCommand::SetDecode { decoder: Decoder::Lrpt, enabled: lrpt });
    assert(command_views(out@) =~= scheduler_decoder_commands(
        primary@,
        extras@.map_values(|b: Bookmark| b@),
    ));
    out
}

/// What tunes a rig to a target.
#[derive(Debug)]
pub struct TargetPlan {
    /// Sent first, in order. The first that cannot be sent ends the attempt.
    pub tune: Vec<RigCommand>,
    /// Sent afterwards. One that cannot be sent is passed over.
    pub decoders: Vec<RigCommand>,
    pub bookmark_name: String,
}

impl TargetPlan {
    /// Whether this is the plan for the target.
    pub open spec fn is_for(
        &self,
        stores: BookmarkStoreMap,
        remote: Seq<char>,
        target: AppliedTargetView,
    ) -> bool {
        match stores.found_for_rig(remote, target.bookmark_id) {
            Some(b) => {
                &&& command_views(self.tune@) == tune_commands(target.center_hz, b)
                &&& command_views(self.decoders@) == scheduler_decoder_commands(
                    b,
                    found_bookmarks(stores, remote, target.extra_bookmark_ids),
                )
                &&& self.bookmark_name@ == b.name
            },
            None => false,
        }
    }
}

/// The error where there is no bookmark for a target.
pub open spec fn no_bookmark_message(bookmark_id: Seq<char>, remote: Seq<char>) -> Seq<char> {
    "bookmark '"@ + bookmark_id + "' not found for remote '"@ + remote + "'"@
}

/// What tunes the rig to the target. There must be a bookmark for it.
pub fn apply_scheduler_target(
    remote: &str,
    stores: &BookmarkStoreMap,
    target: &AppliedTarget,
) -> (res: Result<TargetPlan, String>)
    requires
        stores.wf(),
    ensures
        match res {
            Ok(plan) => plan.is_for(*stores, remote@, target@),
            Err(m) => stores.found_for_rig(remote@, target@.bookmark_id) is None && m@
                == no_bookmark_message(target@.bookmark_id, remote@),
        },
{
    match stores.get_for_rig(remote, target.bookmark_id.as_str()) {
        Some(b) => {
            let extras = find_bookmarks(stores, remote, &target.extra_bookmark_ids);
            let tune = tune_to(target.center_hz, &b);
            let decoders = apply_scheduler_decoders(&b, &extras);
            Ok(TargetPlan { tune, decoders, bookmark_name: b.name })
        },
        None => {
            let head = join3("bookmark '", target.bookmark_id.as_str(), "' not found for remote '");
            Err(join3(head.as_str(), remote, "'"))
        },
    }
}

// ---------------------------------------------------------------------------------------------
// Status
// ---------------------------------------------------------------------------------------------

/// What the scheduler last did with a rig.
#[derive(Debug)]
pub struct SchedulerStatus {
    pub active: bool,
    pub last_entry_id: Option<String>,
    pub last_bookmark_id: Option<String>,
    pub last_bookmark_name: Option<String>,
    /// When, in seconds since the Unix epoch.
    pub last_applied_utc: Option<i64>,
    pub last_center_hz: Option<u64>,
    pub last_bookmark_ids: Vec<String>,
    pub active_satellite: Option<String>,
    pub active_satellite_norad_id: Option<u32>,
}

/// What a status says.
#[verifier::ext_equal]
pub struct SchedulerStatusView {
    pub active: bool,
    pub last_entry_id: Option<Seq<char>>,
    pub last_bookmark_id: Option<Seq<char>>,
    pub last_bookmark_name: Option<Seq<char>>,
    pub last_applied_utc: Option<i64>,
    pub last_center_hz: Option<u64>,
    pub last_bookmark_ids: Seq<Seq<char>>,
    pub active_satellite: Option<Seq<char>>,
    pub active_satellite_norad_id: Option<u32>,
}

impl View for SchedulerStatus {
    type V = SchedulerStatusView;

    open spec fn view(&self) -> SchedulerStatusView {
        SchedulerStatusView {
            active: self.active,
            last_entry_id: opt_view(self.last_entry_id),
            last_bookmark_id: opt_view(self.last_bookmark_id),
            last_bookmark_name: opt_view(self.last_bookmark_name),
            last_applied_utc: self.last_applied_utc,
            last_center_hz: self.last_center_hz,
            last_bookmark_ids: list_view(self.last_bookmark_ids@),
            active_satellite: opt_view(self.active_satellite),
            active_satellite_norad_id: self.active_satellite_norad_id,
        }
    }
}

impl Clone for SchedulerStatus {
    fn clone(&self) -> (res: Self)
        ensures
            res@ == self@,
    {
        SchedulerStatus {
            active: self.active,
            last_entry_id: opt_clone(&self.last_entry_id),
            last_bookmark_id: opt_clone(&self.last_bookmark_id),
            last_bookmark_name: opt_clone(&self.last_bookmark_name),
            last_applied_utc: self.last_applied_utc,
            last_center_hz: self.last_center_hz,
            last_bookmark_ids: list_clone(&self.last_bookmark_ids),
            active_satellite: opt_clone(&self.active_satellite),
            active_satellite_norad_id: self.active_satellite_norad_id,
        }
    }
}

/// The status of a rig that the scheduler has not touched.
pub open spec fn untouched() -> SchedulerStatusView {
    SchedulerStatusView {
        active: false,
        last_entry_id: None,
        last_bookmark_id: None,
        last_bookmark_name: None,
        last_applied_utc: None,
        last_center_hz: None,
        last_bookmark_ids: Seq::empty(),
        active_satellite: None,
        active_satellite_norad_id: None,
    }
}

impl Default for SchedulerStatus {
    fn default() -> (res: Self)
        ensures
            res@ == untouched(),
    {
        let last_bookmark_ids: Vec<String> = Vec::new();
        assert(list_view(last_bookmark_ids@) =~= Seq::empty());
        SchedulerStatus {
            active: false,
            last_entry_id: None,
            last_bookmark_id: None,
            last_bookmark_name: None,
            last_applied_utc: None,
            last_center_hz: None,
            last_bookmark_ids,
            active_satellite: None,
            active_satellite_norad_id: None,
        }
    }
}

/// The status after a rig was tuned to the target.
pub open spec fn status_after(
    target: ScheduledTargetView,
    bookmark_name: Seq<char>,
    applied_utc: i64,
) -> SchedulerStatusView {
    SchedulerStatusView {
        active: true,
        last_entry_id: target.entry_id,
        last_bookmark_id: Some(target.target.bookmark_id),
        last_bookmark_name: Some(bookmark_name),
        last_applied_utc: Some(applied_utc),
        last_center_hz: target.target.center_hz,
        last_bookmark_ids: target.target.extra_bookmark_ids,
        active_satellite: match target.satellite {
            Some((name, _)) => Some(name),
            None => None,
        },
        active_satellite_norad_id: match target.satellite {
            Some((_, norad_id)) => Some(norad_id),
            None => None,
        },
    }
}

/// The status after a rig was tuned to the target.
pub fn applied_status(target: &ScheduledTarget, bookmark_name: &str, applied_utc: i64) -> (res:
    SchedulerStatus)
    ensures
        res@ == status_after(target@, bookmark_name@, applied_utc),
{
    SchedulerStatus {
        active: true,
        last_entry_id: opt_clone(&target.entry_id),
        last_bookmark_id: Some(target.target.bookmark_id.clone()),
        last_bookmark_name: Some(own(bookmark_name)),
        last_applied_utc: Some(applied_utc),
        last_center_hz: target.target.center_hz,
        last_bookmark_ids: list_clone(&target.target.extra_bookmark_ids),
        active_satellite: match &target.satellite {
            Some((name, _)) => Some(name.clone()),
            None => None,
        },
        active_satellite_norad_id: match &target.satellite {
            Some((_, norad_id)) => Some(*norad_id),
            None => None,
        },
    }
}

/// The status of each rig that the scheduler has touched.
#[derive(Debug)]
pub struct SchedulerStatusMap {
    pub by_rig: Table<SchedulerStatus>,
}

impl SchedulerStatusMap {
    /// No rig is listed twice.
    pub open spec fn wf(&self) -> bool {
        self.by_rig.wf()
    }

    /// The status of a rig.
    pub open spec fn status_of(&self, remote: Seq<char>) -> SchedulerStatusView {
        if self.by_rig@.contains_key(remote) {
            self.by_rig@[remote]@
        } else {
            untouched()
        }
    }

    /// No rig has been touched.
    pub fn new() -> (res: Self)
        ensures
            res.wf(),
            forall|remote: Seq<char>| #[trigger] res.status_of(remote) == untouched(),
    {
        SchedulerStatusMap { by_rig: Table::new() }
    }

    /// Notes the status of a rig; the others keep theirs.
    pub fn record(&mut self, remote: &str, status: SchedulerStatus)
        requires
            old(self).wf(),
        ensures
            final(self).wf(),
            final(self).status_of(remote@) == status@,
            forall|r: Seq<char>|
                r != remote@ ==> #[trigger] final(self).status_of(r) == old(self).status_of(r),
    {
        self.by_rig.insert(remote, status);
    }

    /// The status of a rig.
    pub fn get_scheduler_status(&self, remote: &str) -> (res: SchedulerStatus)
        requires
            self.wf(),
        ensures
            res@ == self.status_of(remote@),
    {
        match self.by_rig.get(remote) {
            Some(s) => s.clone(),
            None => SchedulerStatus::default(),
        }
    }
}

// ---------------------------------------------------------------------------------------------
// The periodic task
// ---------------------------------------------------------------------------------------------

/// What the periodic task remembers between two runs.
#[derive(Debug)]
pub struct SchedulerTask {
    /// What each rig is tuned to.
    pub last_applied: Table<AppliedTarget>,
    /// Whether the last run was allowed.
    pub last_control_allowed: bool,
}

impl SchedulerTask {
    /// No rig is listed twice.
    pub open spec fn wf(&self) -> bool {
        self.last_applied.wf()
    }

    /// What the task knows a rig to be tuned to.
    pub open spec fn tuned_to(&self, remote: Seq<char>) -> Option<AppliedTargetView> {
        if self.last_applied@.contains_key(remote) {
            Some(self.last_applied@[remote]@)
        } else {
            None
        }
    }

    /// Nothing has been tuned, and no run was allowed.
    pub fn new() -> (res: Self)
        ensures
            res.wf(),
            !res.last_control_allowed,
            forall|remote: Seq<char>| #[trigger] res.tuned_to(remote) is None,
    {
        SchedulerTask { last_applied: Table::new(), last_control_allowed: false }
    }

    /// Begins a run. The result says whether it is allowed. When it is and the one before was not,
    /// a user may have tuned the rigs since, so all that was known is forgotten.
    pub fn begin(&mut self, allowed: bool) -> (res: bool)
        requires
            old(self).wf(),
        ensures
            res == allowed,
            final(self).wf(),
            final(self).last_control_allowed == allowed,
            forall|remote: Seq<char>| #[trigger]
                final(self).tuned_to(remote) == (if allowed && !old(self).last_control_allowed {
                    None
                } else {
                    old(self).tuned_to(remote)
                }),
    {
        if allowed && !self.last_control_allowed {
            self.last_applied = Table::new();
        }
        self.last_control_allowed = allowed;
        allowed
    }

    /// What the task is to do with the rig of a configuration: nothing where nothing is scheduled,
    /// where the rig is tuned to it already, or where there is no bookmark for it.
    pub fn plan(
        &self,
        config: &SchedulerConfig,
        moment: &Moment,
        stores: &BookmarkStoreMap,
    ) -> (res: Option<(ScheduledTarget, TargetPlan)>)
        requires
            self.wf(),
            stores.wf(),
        ensures
            match res {
                Some((target, plan)) => {
                    &&& scheduled(*config, *moment) == Some(target@)
                    &&& self.tuned_to(config.remote@) != Some(target@.target)
                    &&& plan.is_for(*stores, config.remote@, target@.target)
                },
                None => match scheduled(*config, *moment) {
                    Some(target) => self.tuned_to(config.remote@) == Some(target.target)
                        || stores.found_for_rig(
                        config.remote@,
                        target.target.bookmark_id,
                    ) is None,
                    None => true,
                },
            },
    {
        match scheduled_target(config, moment) {
            Some(target) => {
                match self.last_applied.get(config.remote.as_str()) {
                    Some(tuned) => {
                        if same_target(tuned, &target.target) {
                            return None;
                        }
                    },
                    None => {},
                }
                match apply_scheduler_target(config.remote.as_str(), stores, &target.target) {
                    Ok(plan) => Some((target, plan)),
                    Err(_) => None,
                }
            },
            None => None,
        }
    }

    /// Notes that a rig has been tuned; what is known of the others stays.
    pub fn applied(&mut self, remote: &str, target: AppliedTarget)
        requires
            old(self).wf(),
        ensures
            final(self).wf(),
            final(self).last_control_allowed == old(self).last_control_allowed,
            final(self).tuned_to(remote@) == Some(target@),
            forall|r: Seq<char>|
                r != remote@ ==> #[trigger] final(self).tuned_to(r) == old(self).tuned_to(r),
    {
        self.last_applied.insert(remote, target);
    }
}

/// What restores a rig to what the scheduler last had it tuned to: nothing where it never tuned it
/// or where the bookmark is gone.
pub fn apply_last_scheduler_cycle(
    remote: &str,
    statuses: &SchedulerStatusMap,
    stores: &BookmarkStoreMap,
) -> (res: Option<(ScheduledTarget, TargetPlan)>)
    requires
        statuses.wf(),
        stores.wf(),
    ensures
        match res {
            Some((target, plan)) => {
                &&& last_target(statuses.status_of(remote@)) == Some(target@)
                &&& plan.is_for(*stores, remote@, target@.target)
            },
            None => match last_target(statuses.status_of(remote@)) {
                Some(target) => stores.found_for_rig(remote@, target.target.bookmark_id) is None,
                None => true,
            },
        },
{
    let status = statuses.get_scheduler_status(remote);
    match status.last_bookmark_id {
        Some(bookmark_id) => {
            let satellite = match (status.active_satellite, status.active_satellite_norad_id) {
                (Some(name), Some(norad_id)) => Some((name, norad_id)),
                _ => None,
            };
            let target = ScheduledTarget {
                entry_id: status.last_entry_id,
                target: AppliedTarget {
                    bookmark_id,
                    center_hz: status.last_center_hz,
                    extra_bookmark_ids: status.last_bookmark_ids,
                },
                satellite,
            };
            match apply_scheduler_target(remote, stores, &target.target) {
                Ok(plan) => Some((target, plan)),
                Err(_) => None,
            }
        },
        None => None,
    }
}

/// The target that a status tells of.
pub open spec fn last_target(status: SchedulerStatusView) -> Option<ScheduledTargetView> {
    match status.last_bookmark_id {
        Some(bookmark_id) => Some(
            ScheduledTargetView {
                entry_id: status.last_entry_id,
                target: AppliedTargetView {
                    bookmark_id,
                    center_hz: status.last_center_hz,
                    extra_bookmark_ids: status.last_bookmark_ids,
                },
                satellite: match (status.active_satellite, status.active_satellite_norad_id) {
                    (Some(name), Some(norad_id)) => Some((name, norad_id)),
                    _ => None,
                },
            },
        ),
        None => None,
    }
}

/// A status tells of the target that it was written for: restoring a rig gives back what the
/// scheduler had tuned it to.
pub proof fn status_tells_target(
    target: ScheduledTargetView,
    bookmark_name: Seq<char>,
    applied_utc: i64,
)
    ensures
        last_target(status_after(target, bookmark_name, applied_utc)) == Some(target),
{
}

// ---------------------------------------------------------------------------------------------
// Requests
// ---------------------------------------------------------------------------------------------

/// A request to tune a rig to an entry of its timetable at once.
#[derive(Debug)]
pub struct SchedulerActivateEntryRequest {
    pub entry_id: String,
}

/// Why an entry could not be activated.
#[derive(Debug)]
pub enum ActivateError {
    ConfigNotFound,
    NotTimeSpan,
    EntryNotFound,
    NoPrimaryBookmark,
    /// With what tuning the rig gave.
    Failed(String),
}

impl ActivateError {
    /// The status code of the answer.
    pub fn status_code(&self) -> (res: u16)
        ensures
            res == (match self {
                ActivateError::ConfigNotFound | ActivateError::EntryNotFound => 404u16,
                ActivateError::NotTimeSpan | ActivateError::NoPrimaryBookmark => 400u16,
                ActivateError::Failed(_) => 500u16,
            }),
    {
        match self {
            ActivateError::ConfigNotFound | ActivateError::EntryNotFound => 404,
            ActivateError::NotTimeSpan | ActivateError::NoPrimaryBookmark => 400,
            ActivateError::Failed(_) => 500,
        }
    }

    /// The text of the answer.
    pub fn message(&self) -> (res: String)
        ensures
            res@ == (match self {
                ActivateError::ConfigNotFound => "scheduler config not found"@,
                ActivateError::NotTimeSpan => "scheduler mode is not time_span"@,
                ActivateError::EntryNotFound => "scheduler entry not found"@,
                ActivateError::NoPrimaryBookmark => "scheduler entry has no primary bookmark"@,
                ActivateError::Failed(m) => m@,
            }),
    {
        match self {
            ActivateError::ConfigNotFound => own("scheduler config not found"),
            ActivateError::NotTimeSpan => own("scheduler mode is not time_span"),
            ActivateError::EntryNotFound => own("scheduler entry not found"),
            ActivateError::NoPrimaryBookmark => own("scheduler entry has no primary bookmark"),
            ActivateError::Failed(m) => m.clone(),
        }
    }
}

/// The position of the first entry with the id; the length of the list where there is none.
pub open spec fn entry_index(entries: Seq<ScheduleEntry>, id: Seq<char>) -> int
    decreases entries.len(),
{
    if entries.len() == 0 {
        0
    } else if entries.first().id@ == id {
        0
    } else {
        1 + entry_index(entries.skip(1), id)
    }
}

proof fn lemma_entry_index(entries: Seq<ScheduleEntry>, id: Seq<char>, i: int)
    requires
        0 <= i <= entries.len(),
        forall|j: int| 0 <= j < i ==> (#[trigger] entries[j]).id@ != id,
        i < entries.len() ==> entries[i].id@ == id,
    ensures
        entry_index(entries, id) == i,
    decreases entries.len(),
{
    if i > 0 {
        let rest = entries.skip(1);
        assert(entries.first() == entries[0]);
        assert forall|j: int| 0 <= j < i - 1 implies (#[trigger] rest[j]).id@ != id by {
            assert(rest[j] == entries[j + 1]);
        }
        lemma_entry_index(rest, id, i - 1);
    }
}

fn find_entry(entries: &Vec<ScheduleEntry>, id: &str) -> (res: usize)
    ensures
        res == entry_index(entries@, id@),
        res <= entries@.len(),
{
    let mut i: usize = 0;
    while i < entries.len()
        invariant
            i <= entries@.len(),
            forall|j: int| 0 <= j < i ==> (#[trigger] entries@[j]).id@ != id@,
        decreases entries@.len() - i,
    {
        if str_eq(entries[i].id.as_str(), id) {
            proof {
                lemma_entry_index(entries@, id@, i as int);
            }
            return i;
        }
        i = i + 1;
    }
    proof {
        lemma_entry_index(entries@, id@, i as int);
    }
    i
}

/// The entry that a request is about, or why there is none.
pub open spec fn entry_to_activate(
    config: Option<&SchedulerConfig>,
    entry_id: Seq<char>,
) -> Result<ScheduleEntry, ActivateError> {
    match config {
        None => Err(ActivateError::ConfigNotFound),
        Some(c) => if c.mode != SchedulerMode::TimeSpan {
            Err(ActivateError::NotTimeSpan)
        } else {
            let i = entry_index(c.entries@, trimmed(entry_id));
            if i == c.entries@.len() {
                Err(ActivateError::EntryNotFound)
            } else if trimmed(c.entries@[i].bookmark_id@).len() == 0 {
                Err(ActivateError::NoPrimaryBookmark)
            } else {
                Ok(c.entries@[i])
            }
        },
    }
}

/// What tunes a rig to the entry of a request.
pub fn activate_entry(
    rig_id: &str,
    config: Option<&SchedulerConfig>,
    request: &SchedulerActivateEntryRequest,
    stores: &BookmarkStoreMap,
) -> (res: Result<(ScheduledTarget, TargetPlan), ActivateError>)
    requires
        stores.wf(),
    ensures
        match entry_to_activate(config, request.entry_id@) {
            Ok(entry) => match res {
                Ok((target, plan)) => target@ == entry_target(entry) && plan.is_for(
                    *stores,
                    rig_id@,
                    target@.target,
                ),
                Err(ActivateError::Failed(m)) => stores.found_for_rig(
                    rig_id@,
                    entry.bookmark_id@,
                ) is None && m@ == no_bookmark_message(entry.bookmark_id@, rig_id@),
                Err(_) => false,
            },
            Err(e) => res == Err::<(ScheduledTarget, TargetPlan), ActivateError>(e),
        },
{
    match config {
        None => Err(ActivateError::ConfigNotFound),
        Some(c) => {
            if c.mode != SchedulerMode::TimeSpan {
                return Err(ActivateError::NotTimeSpan);
            }
            let id = trim(request.entry_id.as_str());
            let i: usize = find_entry(&c.entries, id.as_str());
            if i == c.entries.len() {
                return Err(ActivateError::EntryNotFound);
            }
            let entry = &c.entries[i];
            let bookmark = trim(entry.bookmark_id.as_str());
            if str_eq(bookmark.as_str(), "") {
                proof {
                    reveal_strlit("");
                }
                return Err(ActivateError::NoPrimaryBookmark);
            }
            proof {
                reveal_strlit("");
                if bookmark@.len() == 0 {
                    assert(bookmark@ =~= ""@);
                }
            }
            let target = ScheduledTarget {
                entry_id: Some(entry.id.clone()),
                target: AppliedTarget {
                    bookmark_id: entry.bookmark_id.clone(),
                    center_hz: entry.center_hz,
                    extra_bookmark_ids: list_clone(&entry.bookmark_ids),
                },
                satellite: None,
            };
            assert(target@ == entry_target(*entry));
            match apply_scheduler_target(rig_id, stores, &target.target) {
                Ok(plan) => Ok((target, plan)),
                Err(m) => Err(ActivateError::Failed(m)),
            }
        },
    }
}

// ---------------------------------------------------------------------------------------------
// What a target comes to
// ---------------------------------------------------------------------------------------------

/// The frequency of the bookmark is set and, after it, its mode. A centre frequency is set before
/// them, a bandwidth that a rig can take after them, and nothing else.
pub proof fn tuning_follows_the_bookmark(center_hz: Option<u64>, b: BookmarkView)
    ensures
        ({
            let cmds = tune_commands(center_hz, b);
            let first: int = if center_hz is Some { 1 } else { 0 };
            let wide = b.bandwidth_hz is Some && 0 < b.bandwidth_hz->0 <= 4_294_967_295;
            &&& cmds.len() == first + 2 + (if wide { 1int } else { 0 })
            &&& center_hz is Some ==> cmds[0] == CommandView::SetCenterFreq(center_hz->0)
            &&& cmds[first] == CommandView::SetFreq(b.freq_hz)
            &&& cmds[first + 1] == CommandView::SetMode(b.mode)
            &&& wide ==> cmds.last() == CommandView::SetBandwidth(b.bandwidth_hz->0 as u32)
        }),
{
}

/// Every decoder that the scheduler looks after is told once whether to run: it runs where one of the
/// bookmarks names it, and APRS also for a bookmark in packet mode. A weather satellite is received
/// under each of its names.
pub proof fn decoders_follow_the_bookmarks(primary: BookmarkView, extras: Seq<BookmarkView>)
    ensures
        ({
            let all = seq![primary] + extras;
            let cmds = scheduler_decoder_commands(primary, extras);
            let on = |kind: Seq<char>|
                exists|i: int, j: int|
                    0 <= i < all.len() && 0 <= j < all[i].decoders.len() && lowered(
                        trimmed(#[trigger] all[i].decoders[j]),
                    ) == kind;
            &&& cmds.len() == 8
            &&& cmds[0] == (CommandView::SetDecode {
                decoder: Decoder::Aprs,
                enabled: lowered(trimmed(primary.mode)) == "pkt"@ || on("aprs"@),
            })
            &&& cmds[1] == (CommandView::SetDecode {
                decoder: Decoder::HfAprs,
                enabled: on("hf-aprs"@),
            })
            &&& cmds[2] == (CommandView::SetDecode { decoder: Decoder::Ft8, enabled: on("ft8"@) })
            &&& cmds[3] == (CommandView::SetDecode { decoder: Decoder::Ft4, enabled: on("ft4"@) })
            &&& cmds[4] == (CommandView::SetDecode { decoder: Decoder::Ft2, enabled: on("ft2"@) })
            &&& cmds[5] == (CommandView::SetDecode { decoder: Decoder::Wspr, enabled: on("wspr"@) })
            &&& cmds[6] == (CommandView::SetDecode {
                decoder: Decoder::Wxsat,
                enabled: on("wxsat"@) || on("noaa"@) || on("apt"@),
            })
            &&& cmds[7] == (CommandView::SetDecode {
                decoder: Decoder::Lrpt,
                enabled: on("lrpt"@) || on("meteor"@),
            })
        }),
{
    let all = seq![primary] + extras;
    lemma_named_somewhere(all, "aprs"@);
    lemma_named_somewhere(all, "hf-aprs"@);
    lemma_named_somewhere(all, "ft8"@);
    lemma_named_somewhere(all, "ft4"@);
    lemma_named_somewhere(all, "ft2"@);
    lemma_named_somewhere(all, "wspr"@);
    lemma_named_somewhere(all, "wxsat"@);
    lemma_named_somewhere(all, "noaa"@);
    lemma_named_somewhere(all, "apt"@);
    lemma_named_somewhere(all, "lrpt"@);
    lemma_named_somewhere(all, "meteor"@);
}

proof fn lemma_named_somewhere(all: Seq<BookmarkView>, kind: Seq<char>)
    ensures
        any_names(all, kind) == (exists|i: int, j: int|
            0 <= i < all.len() && 0 <= j < all[i].decoders.len() && lowered(
                trimmed(#[trigger] all[i].decoders[j]),
            ) == kind),
{
    if any_names(all, kind) {
        let i = choose|i: int|
            0 <= i < all.len() && names_decoder((#[trigger] all[i]).decoders, kind);
        decoders_are_named_without_case(all[i].decoders, kind, 0);
        let j = choose|j: int|
            0 <= j < all[i].decoders.len() && lowered(trimmed(#[trigger] all[i].decoders[j]))
                == kind;
        assert(lowered(trimmed(all[i].decoders[j])) == kind);
    }
    if exists|i: int, j: int|
        0 <= i < all.len() && 0 <= j < all[i].decoders.len() && lowered(
            trimmed(#[trigger] all[i].decoders[j]),
        ) == kind {
        let (i, j) = choose|i: int, j: int|
            0 <= i < all.len() && 0 <= j < all[i].decoders.len() && lowered(
                trimmed(#[trigger] all[i].decoders[j]),
            ) == kind;
        decoders_are_named_without_case(all[i].decoders, kind, j);
    }
}

/// Further bookmarks are looked up one by one, in the order of their ids; an id that leads nowhere is
/// left out.
pub proof fn further_bookmarks_in_their_order(
    stores: BookmarkStoreMap,
    remote: Seq<char>,
    a: Seq<Seq<char>>,
    b: Seq<Seq<char>>,
    id: Seq<char>,
)
    ensures
        found_bookmarks(stores, remote, a + b) == found_bookmarks(stores, remote, a)
            + found_bookmarks(stores, remote, b),
        stores.found_for_rig(remote, id) is Some ==> found_bookmarks(stores, remote, seq![id])
            == seq![stores.found_for_rig(remote, id)->0],
        stores.found_for_rig(remote, id) is None ==> found_bookmarks(
            stores,
            remote,
            seq![id],
        ).len() == 0,
    decreases b.len(),
{
    if b.len() == 0 {
        assert(a + b =~= a);
    } else {
        further_bookmarks_in_their_order(stores, remote, a, b.drop_last(), id);
        assert((a + b).drop_last() =~= a + b.drop_last());
        assert((a + b).last() == b.last());
    }
    let one = seq![id];
    assert(one.drop_last() =~= Seq::empty());
    assert(found_bookmarks(stores, remote, one.drop_last()) =~= Seq::empty());
    assert(one.last() == id);
}

/// What is said of the last target is all of the target, with the name and the moment.
pub proof fn statuses_in_full(
    s: SchedulerStatus,
    target: ScheduledTargetView,
    name: Seq<char>,
    utc: i64,
)
    ensures
        s@.active == s.active,
        s@.last_entry_id == opt_view(s.last_entry_id),
        s@.last_bookmark_id == opt_view(s.last_bookmark_id),
        s@.last_bookmark_name == opt_view(s.last_bookmark_name),
        s@.last_applied_utc == s.last_applied_utc,
        s@.last_center_hz == s.last_center_hz,
        s@.last_bookmark_ids == list_view(s.last_bookmark_ids@),
        s@.active_satellite == opt_view(s.active_satellite),
        s@.active_satellite_norad_id == s.active_satellite_norad_id,
        ({
            let a = status_after(target, name, utc);
            &&& a.active
            &&& a.last_entry_id == target.entry_id
            &&& a.last_bookmark_id == Some(target.target.bookmark_id)
            &&& a.last_bookmark_name == Some(name)
            &&& a.last_applied_utc == Some(utc)
            &&& a.last_center_hz == target.target.center_hz
            &&& a.last_bookmark_ids == target.target.extra_bookmark_ids
            &&& a.active_satellite is Some <==> target.satellite is Some
            &&& a.active_satellite_norad_id is Some <==> target.satellite is Some
            &&& target.satellite matches Some((sat, norad_id)) ==> a.active_satellite == Some(sat)
                && a.active_satellite_norad_id == Some(norad_id)
        }),
        ({
            let u = untouched();
            &&& !u.active
            &&& u.last_entry_id is None
            &&& u.last_bookmark_id is None
            &&& u.last_bookmark_name is None
            &&& u.last_applied_utc is None
            &&& u.last_center_hz is None
            &&& u.last_bookmark_ids.len() == 0
            &&& u.active_satellite is None
            &&& u.active_satellite_norad_id is None
        }),
{
}

/// A status without a bookmark gives no target, one with a bookmark gives its own.
pub proof fn targets_of_statuses(status: SchedulerStatusView)
    ensures
        last_target(status) is Some <==> status.last_bookmark_id is Some,
        last_target(status) matches Some(t) ==> {
            &&& t.entry_id == status.last_entry_id
            &&& Some(t.target.bookmark_id) == status.last_bookmark_id
            &&& t.target.center_hz == status.last_center_hz
            &&& t.target.extra_bookmark_ids == status.last_bookmark_ids
            &&& t.satellite is Some <==> status.active_satellite is Some
                && status.active_satellite_norad_id is Some
            &&& t.satellite matches Some((sat, norad_id)) ==> status.active_satellite == Some(sat)
                && status.active_satellite_norad_id == Some(norad_id)
        },
{
}

/// The first entry with the id is activated, white space around the request's id aside, where the
/// scheduler follows a timetable and the entry has a bookmark.
pub proof fn the_first_entry_with_the_id_is_activated(
    config: SchedulerConfig,
    id: Seq<char>,
    i: int,
)
    requires
        0 <= i < config.entries@.len(),
        config.entries@[i].id@ == trimmed(id),
        forall|j: int| 0 <= j < i ==> (#[trigger] config.entries@[j]).id@ != trimmed(id),
    ensures
        config.mode != SchedulerMode::TimeSpan ==> entry_to_activate(Some(&config), id) == Err::<
            ScheduleEntry,
            ActivateError,
        >(ActivateError::NotTimeSpan),
        config.mode == SchedulerMode::TimeSpan && trimmed(config.entries@[i].bookmark_id@).len()
            == 0 ==> entry_to_activate(Some(&config), id) == Err::<ScheduleEntry, ActivateError>(
            ActivateError::NoPrimaryBookmark,
        ),
        config.mode == SchedulerMode::TimeSpan && trimmed(config.entries@[i].bookmark_id@).len() > 0
            ==> entry_to_activate(Some(&config), id) == Ok::<ScheduleEntry, ActivateError>(
            config.entries@[i],
        ),
{
    lemma_first_entry(config.entries@, trimmed(id), i);
}

/// Without a timetable, and without an entry with the id, nothing is activated.
pub proof fn entries_that_cannot_be_activated(config: SchedulerConfig, id: Seq<char>)
    ensures
        entry_to_activate(None, id) == Err::<ScheduleEntry, ActivateError>(
            ActivateError::ConfigNotFound,
        ),
        config.mode != SchedulerMode::TimeSpan ==> entry_to_activate(Some(&config), id) == Err::<
            ScheduleEntry,
            ActivateError,
        >(ActivateError::NotTimeSpan),
        config.mode == SchedulerMode::TimeSpan && (forall|j: int|
            0 <= j < config.entries@.len() ==> (#[trigger] config.entries@[j]).id@ != trimmed(id))
            ==> entry_to_activate(Some(&config), id) == Err::<ScheduleEntry, ActivateError>(
            ActivateError::EntryNotFound,
        ),
{
    if forall|j: int|
        0 <= j < config.entries@.len() ==> (#[trigger] config.entries@[j]).id@ != trimmed(id) {
        lemma_no_entry(config.entries@, trimmed(id));
    }
}

proof fn lemma_first_entry(entries: Seq<ScheduleEntry>, id: Seq<char>, i: int)
    requires
        0 <= i < entries.len(),
        entries[i].id@ == id,
        forall|j: int| 0 <= j < i ==> (#[trigger] entries[j]).id@ != id,
    ensures
        entry_index(entries, id) == i,
    decreases entries.len(),
{
    if i > 0 {
        assert(entries[0].id@ != id);
        let rest = entries.skip(1);
        assert forall|j: int| 0 <= j < i - 1 implies (#[trigger] rest[j]).id@ != id by {
            assert(rest[j] == entries[j + 1]);
        }
        lemma_first_entry(rest, id, i - 1);
    }
}

proof fn lemma_no_entry(entries: Seq<ScheduleEntry>, id: Seq<char>)
    requires
        forall|j: int| 0 <= j < entries.len() ==> (#[trigger] entries[j]).id@ != id,
    ensures
        entry_index(entries, id) == entries.len(),
    decreases entries.len(),
{
    if entries.len() > 0 {
        assert(entries[0].id@ != id);
        let rest = entries.skip(1);
        assert forall|j: int| 0 <= j < rest.len() implies (#[trigger] rest[j]).id@ != id by {
            assert(rest[j] == entries[j + 1]);
        }
        lemma_no_entry(rest, id);
    }
}

/// A plan is that of the bookmark which the rig finds under the id of the target.
pub proof fn plans_are_for_the_bookmark(
    plan: TargetPlan,
    stores: BookmarkStoreMap,
    remote: Seq<char>,
    target: AppliedTargetView,
)
    ensures
        stores.found_for_rig(remote, target.bookmark_id) is None ==> !plan.is_for(
            stores,
            remote,
            target,
        ),
        plan.is_for(stores, remote, target) ==> {
            let b = stores.found_for_rig(remote, target.bookmark_id)->0;
            &&& plan.bookmark_name@ == b.name
            &&& command_views(plan.tune@) == tune_commands(target.center_hz, b)
            &&& command_views(plan.decoders@) == scheduler_decoder_commands(
                b,
                found_bookmarks(stores, remote, target.extra_bookmark_ids),
            )
        },
{
}

/// A rig has the status that was noted for it, and is tuned as was noted, and nothing is known of a
/// rig that nothing was noted for.
pub proof fn what_is_noted_of_a_rig(
    statuses: SchedulerStatusMap,
    task: SchedulerTask,
    remote: Seq<char>,
)
    ensures
        statuses.by_rig@.contains_key(remote) ==> statuses.status_of(remote)
            == statuses.by_rig@[remote]@,
        !statuses.by_rig@.contains_key(remote) ==> statuses.status_of(remote) == untouched(),
        task.last_applied@.contains_key(remote) ==> task.tuned_to(remote) == Some(
            task.last_applied@[remote]@,
        ),
        !task.last_applied@.contains_key(remote) ==> task.tuned_to(remote) is None,
{
}

/// A bookmark that is not found is named with the rig it was looked for.
pub proof fn missing_bookmarks_are_named(bookmark_id: Seq<char>, remote: Seq<char>)
    ensures
        no_bookmark_message(bookmark_id, remote) == "bookmark '"@ + bookmark_id
            + "' not found for remote '"@ + remote + "'"@,
{
}

} // verus!
