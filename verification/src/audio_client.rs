//! The audio connections: one per rig, with its virtual channel subscriptions.
use vstd::prelude::*;

use crate::audio_ws::AudioStreamInfo;
use crate::gzip::{gunzip_bytes, gunzipped};
use crate::id_table::{id_index, lemma_id_entry, IdTable};
use crate::table::{entries_map, key_index, lemma_entry, Table};
use crate::text::{decimal, join3, list_clone, list_view, opt_view, own, str_eq, u64_text};
use crate::vchan::{VChanAudioCmd, VChanCmdView};

verus! {

// ---------------------------------------------------------------------------------------------
// Which rigs have an audio task
// ---------------------------------------------------------------------------------------------

/// A rig as the server lists it: its id and the audio port the server names for it.
#[derive(Debug)]
pub struct KnownRig {
    pub rig_id: String,
    pub audio_port: Option<u16>,
}

/// The audio port of a rig: the configured one, or the server's, or the default.
pub open spec fn port_of(ports: Map<Seq<char>, u16>, rig: KnownRig, default_port: u16) -> u16 {
    if ports.contains_key(rig.rig_id@) {
        ports[rig.rig_id@]
    } else {
        match rig.audio_port {
            Some(p) => p,
            None => default_port,
        }
    }
}

/// The audio port of each known rig; of two entries for one rig the later counts.
pub open spec fn rig_ports_of(
    known: Seq<KnownRig>,
    ports: Map<Seq<char>, u16>,
    default_port: u16,
) -> Map<Seq<char>, u16>
    decreases known.len(),
{
    if known.len() == 0 {
        Map::empty()
    } else {
        rig_ports_of(known.drop_last(), ports, default_port).insert(
            known.last().rig_id@,
            port_of(ports, known.last(), default_port),
        )
    }
}

/// The audio port of each known rig.
pub fn current_rigs(known: &Vec<KnownRig>, rig_ports: &Table<u16>, default_port: u16) -> (res: Table<
    u16,
>)
    requires
        rig_ports.wf(),
    ensures
        res.wf(),
        res@ == rig_ports_of(known@, rig_ports@, default_port),
        forall|i: int|
            0 <= i < known@.len() ==> res@.contains_key((#[trigger] known@[i]).rig_id@) && (
            rig_ports@.contains_key(known@[i].rig_id@) ==> res@[known@[i].rig_id@]
                == rig_ports@[known@[i].rig_id@]),
        forall|i: int|
            0 <= i < known@.len() && !rig_ports@.contains_key((#[trigger] known@[i]).rig_id@) && (
            forall|j: int| i < j < known@.len() ==> (#[trigger] known@[j]).rig_id@ != known@[i].rig_id@)
                ==> res@[known@[i].rig_id@] == (if known@[i].audio_port is Some {
                known@[i].audio_port->0
            } else {
                default_port
            }),
        forall|rig: Seq<char>| #[trigger]
            res@.contains_key(rig) ==> exists|i: int|
                0 <= i < known@.len() && (#[trigger] known@[i]).rig_id@ == rig,
{
    let mut out: Table<u16> = Table::new();
    let mut i: usize = 0;
    while i < known.len()
        invariant
            i <= known@.len(),
            rig_ports.wf(),
            out.wf(),
            out@ == rig_ports_of(known@.take(i as int), rig_ports@, default_port),
        decreases known@.len() - i,
    {
        let rig = &known[i];
        let port: u16 = match rig_ports.get(rig.rig_id.as_str()) {
            Some(p) => *p,
            None => match rig.audio_port {
                Some(p) => p,
                None => default_port,
            },
        };
        assert(known@.take(i + 1).drop_last() =~= known@.take(i as int));
        out.insert(rig.rig_id.as_str(), port);
        i = i + 1;
    }
    assert(known@.take(known@.len() as int) =~= known@);
    proof {
        let ports = rig_ports@;
        assert(known@.take(i as int) =~= known@);
        assert forall|i: int| 0 <= i < known@.len() implies out@.contains_key(
            (#[trigger] known@[i]).rig_id@,
        ) && (ports.contains_key(known@[i].rig_id@) ==> out@[known@[i].rig_id@]
            == ports[known@[i].rig_id@]) by {
            configured_ports_come_first(known@, ports, default_port, i);
        }
        assert forall|i: int|
            0 <= i < known@.len() && !ports.contains_key((#[trigger] known@[i]).rig_id@) && (
            forall|j: int| i < j < known@.len() ==> (#[trigger] known@[j]).rig_id@ != known@[i].rig_id@) implies out@[known@[i].rig_id@]
            == (if known@[i].audio_port is Some {
            known@[i].audio_port->0
        } else {
            default_port
        }) by {
            other_ports_are_the_servers(known@, ports, default_port, i);
        }
        assert forall|rig: Seq<char>| #[trigger] out@.contains_key(rig) implies exists|i: int|
            0 <= i < known@.len() && (#[trigger] known@[i]).rig_id@ == rig by {
            only_known_rigs_have_audio(known@, ports, default_port, rig);
        }
    }
    out
}

/// A rig and the port its audio task connects to.
#[derive(Debug)]
pub struct RigPort {
    pub rig_id: String,
    pub port: u16,
}

/// The tasks to stop and to start.
#[derive(Debug)]
pub struct TaskPlan {
    pub stop: Vec<String>,
    pub start: Vec<RigPort>,
}

/// Whether the task of a rig has to stop: the rig is gone or its port has changed.
pub open spec fn must_stop(
    running: Map<Seq<char>, u16>,
    current: Map<Seq<char>, u16>,
    rig: Seq<char>,
) -> bool {
    running.contains_key(rig) && !(current.contains_key(rig) && current[rig] == running[rig])
}

/// Whether a task has to start for a rig: none runs, or the one that ran has to stop.
pub open spec fn must_start(
    running: Map<Seq<char>, u16>,
    current: Map<Seq<char>, u16>,
    rig: Seq<char>,
) -> bool {
    current.contains_key(rig) && (!running.contains_key(rig) || must_stop(running, current, rig))
}

/// The audio tasks that run, by rig, with the port each connects to.
#[derive(Debug)]
pub struct AudioTasks {
    pub running: Table<u16>,
}

/// The rigs of a plan's new tasks.
pub open spec fn started(start: Seq<RigPort>) -> Seq<Seq<char>> {
    start.map_values(|r: RigPort| r.rig_id@)
}

impl AudioTasks {
    /// The table is well formed.
    pub open spec fn wf(&self) -> bool {
        self.running.wf()
    }

    /// No task runs.
    pub fn new() -> (res: Self)
        ensures
            res.wf(),
            res.running@ == Map::<Seq<char>, u16>::empty(),
    {
        AudioTasks { running: Table::new() }
    }

    /// Brings the tasks in line with the current rigs and says which to stop and to start.
    pub fn reconcile(&mut self, current: &Table<u16>) -> (res: TaskPlan)
        requires
            old(self).wf(),
            current.wf(),
        ensures
            final(self).wf(),
            final(self).running@ == current@,
            list_view(res.stop@).no_duplicates(),
            forall|rig: Seq<char>| #[trigger]
                list_view(res.stop@).contains(rig) <==> must_stop(
                    old(self).running@,
                    current@,
                    rig,
                ),
            started(res.start@).no_duplicates(),
            forall|rig: Seq<char>| #[trigger]
                started(res.start@).contains(rig) <==> must_start(
                    old(self).running@,
                    current@,
                    rig,
                ),
            forall|i: int|
                0 <= i < res.start@.len() ==> (#[trigger] res.start@[i]).port
                    == current@[res.start@[i].rig_id@],
    {
        let ghost was = self.running@;
        let ghost entries = self.running.entries@;
        let mut stop: Vec<String> = Vec::new();
        let mut i: usize = 0;
        while i < self.running.entries.len()
            invariant
                i <= self.running.entries@.len(),
                *self == *old(self),
                self.wf(),
                current.wf(),
                was == self.running@,
                entries == self.running.entries@,
                list_view(stop@).no_duplicates(),
                forall|rig: Seq<char>| #[trigger]
                    list_view(stop@).contains(rig) <==> must_stop(was, current@, rig) && exists|
                        j: int,
                    |
                        0 <= j < i && (#[trigger] entries[j]).0@ == rig,
            decreases self.running.entries@.len() - i,
        {
            let rig = self.running.entries[i].0.as_str();
            let port: u16 = self.running.entries[i].1;
            proof {
                lemma_entry(entries, i as int);
            }
            let same = match current.get(rig) {
                Some(p) => *p == port,
                None => false,
            };
            assert(same == !must_stop(was, current@, rig@));
            let ghost before = list_view(stop@);
            assert(!before.contains(rig@)) by {
                if before.contains(rig@) {
                    let j = choose|j: int| 0 <= j < i && (#[trigger] entries[j]).0@ == rig@;
                    assert(entries[j].0@ != entries[i as int].0@);
                }
            }
            if !same {
                stop.push(own(rig));
                assert(list_view(stop@) =~= before.push(rig@));
            }
            proof {
                let after = list_view(stop@);
                assert forall|x: Seq<char>| #[trigger] after.contains(x) <==> must_stop(
                    was,
                    current@,
                    x,
                ) && exists|j: int| 0 <= j < i + 1 && (#[trigger] entries[j]).0@ == x by {
                    assert(before.contains(x) <==> must_stop(was, current@, x) && exists|j: int|
                        0 <= j < i && (#[trigger] entries[j]).0@ == x);
                    if before.contains(x) {
                        let k = choose|k: int| 0 <= k < before.len() && before[k] == x;
                        assert(after[k] == x);
                    }
                    if x == rig@ {
                        assert(entries[i as int].0@ == x);
                        if !same {
                            assert(after[before.len() as int] == x);
                        }
                    } else {
                        if after.contains(x) {
                            let k = choose|k: int| 0 <= k < after.len() && after[k] == x;
                            assert(before[k] == x);
                        }
                    }
                }
            }
            i = i + 1;
        }
        let mut start: Vec<RigPort> = Vec::new();
        let mut next: Table<u16> = Table::new();
        let ghost centries = current.entries@;
        assert(next@ =~= entries_map(centries.take(0)));
        let mut k: usize = 0;
        while k < current.entries.len()
            invariant
                k <= current.entries@.len(),
                *self == *old(self),
                self.wf(),
                current.wf(),
                was == self.running@,
                centries == current.entries@,
                next.wf(),
                forall|x: Seq<char>|
                    #![trigger next@.contains_key(x)]
                    next@.contains_key(x) <==> exists|j: int|
                        0 <= j < k && (#[trigger] centries[j]).0@ == x,
                forall|x: Seq<char>| #[trigger]
                    next@.contains_key(x) ==> current@.contains_key(x) && next@[x] == current@[x],
                started(start@).no_duplicates(),
                forall|rig: Seq<char>| #[trigger]
                    started(start@).contains(rig) <==> must_start(was, current@, rig) && exists|
                        j: int,
                    |
                        0 <= j < k && (#[trigger] centries[j]).0@ == rig,
                forall|j: int|
                    0 <= j < start@.len() ==> (#[trigger] start@[j]).port
                        == current@[start@[j].rig_id@],
            decreases current.entries@.len() - k,
        {
            let rig = current.entries[k].0.as_str();
            let port: u16 = current.entries[k].1;
            proof {
                lemma_entry(centries, k as int);
            }
            let running = match self.running.get(rig) {
                Some(p) => *p == port,
                None => false,
            };
            assert(running == !must_start(was, current@, rig@));
            let ghost before = started(start@);
            assert(!before.contains(rig@)) by {
                if before.contains(rig@) {
                    let j = choose|j: int| 0 <= j < k && (#[trigger] centries[j]).0@ == rig@;
                    assert(centries[j].0@ != centries[k as int].0@);
                }
            }
            if !running {
                start.push(RigPort { rig_id: own(rig), port });
                assert(started(start@) =~= before.push(rig@));
            }
            let ghost next_before = next@;
            next.insert(rig, port);
            proof {
                let after = started(start@);
                assert forall|x: Seq<char>| #[trigger] after.contains(x) <==> must_start(
                    was,
                    current@,
                    x,
                ) && exists|j: int| 0 <= j < k + 1 && (#[trigger] centries[j]).0@ == x by {
                    assert(before.contains(x) <==> must_start(was, current@, x) && exists|j: int|
                        0 <= j < k && (#[trigger] centries[j]).0@ == x);
                    if before.contains(x) {
                        let m = choose|m: int| 0 <= m < before.len() && before[m] == x;
                        assert(after[m] == x);
                    }
                    if x == rig@ {
                        assert(centries[k as int].0@ == x);
                        if !running {
                            assert(after[before.len() as int] == x);
                        }
                    } else {
                        if after.contains(x) {
                            let m = choose|m: int| 0 <= m < after.len() && after[m] == x;
                            assert(before[m] == x);
                        }
                    }
                }
                assert forall|x: Seq<char>|
                    #![trigger next@.contains_key(x)]
                    next@.contains_key(x) <==> exists|j: int|
                        0 <= j < k + 1 && (#[trigger] centries[j]).0@ == x by {
                    assert(next_before.contains_key(x) <==> exists|j: int|
                        0 <= j < k && (#[trigger] centries[j]).0@ == x);
                    assert(centries[k as int].0@ == rig@);
                }
            }
            k = k + 1;
        }
        proof {
            assert forall|x: Seq<char>| next@.contains_key(x) == current@.contains_key(x) by {
                if current@.contains_key(x) {
                    let j = key_index(centries, x);
                    assert(centries[j].0@ == x);
                }
            }
            assert(next@ =~= current@);
            assert forall|rig: Seq<char>| #[trigger] list_view(stop@).contains(rig) <==> must_stop(
                was,
                current@,
                rig,
            ) by {
                if must_stop(was, current@, rig) {
                    let j = key_index(entries, rig);
                    assert(entries[j].0@ == rig);
                }
            }
            assert forall|rig: Seq<char>| #[trigger] started(start@).contains(rig) <==> must_start(
                was,
                current@,
                rig,
            ) by {
                if must_start(was, current@, rig) {
                    let j = key_index(centries, rig);
                    assert(centries[j].0@ == rig);
                }
            }
        }
        self.running = next;
        TaskPlan { stop, start }
    }
}

/// Where the rigs have not changed, nothing has to stop or start.
pub proof fn unchanged_rigs_need_nothing(current: Map<Seq<char>, u16>, rig: Seq<char>)
    ensures
        !must_stop(current, current, rig),
        !must_start(current, current, rig),
{
}

/// Where the audio of a rig comes from.
#[derive(Debug)]
pub enum AudioConnectConfig {
    /// An address that was given.
    Fixed(String),
    /// The host of the rig's server, and a port.
    HostPort { host: String, port: u16 },
}

/// What an audio connection says.
#[verifier::ext_equal]
pub enum AudioConnectView {
    Fixed(Seq<char>),
    HostPort { host: Seq<char>, port: u16 },
}

impl View for AudioConnectConfig {
    type V = AudioConnectView;

    open spec fn view(&self) -> AudioConnectView {
        match self {
            AudioConnectConfig::Fixed(addr) => AudioConnectView::Fixed(addr@),
            AudioConnectConfig::HostPort { host, port } => AudioConnectView::HostPort {
                host: host@,
                port: *port,
            },
        }
    }
}

impl AudioConnectConfig {
    /// An address that was given.
    pub fn fixed(addr: String) -> (res: Self)
        ensures
            res@ == AudioConnectView::Fixed(addr@),
    {
        AudioConnectConfig::Fixed(addr)
    }

    /// A host and a port.
    pub fn from_host_port(host: String, port: u16) -> (res: Self)
        ensures
            res@ == (AudioConnectView::HostPort { host: host@, port }),
    {
        AudioConnectConfig::HostPort { host, port }
    }
}

/// The address a rig's audio task connects to: the one that was given, or else the host of its
/// server and the rig's own port. A rig without an entry has the default one.
pub open spec fn address_of(connect: AudioConnectView, port: u16) -> Seq<char> {
    match connect {
        AudioConnectView::Fixed(addr) => addr,
        AudioConnectView::HostPort { host, .. } => host + ":"@ + decimal(port as nat),
    }
}

/// The address a rig's audio task connects to.
pub fn audio_address(
    rig_id: &str,
    port: u16,
    connect: &Table<AudioConnectConfig>,
    default_connect: &AudioConnectConfig,
) -> (res: String)
    requires
        connect.wf(),
    ensures
        res@ == address_of(
            if connect@.contains_key(rig_id@) {
                connect@[rig_id@]@
            } else {
                default_connect@
            },
            port,
        ),
{
    let chosen = match connect.get(rig_id) {
        Some(c) => c,
        None => default_connect,
    };
    match chosen {
        AudioConnectConfig::Fixed(addr) => addr.clone(),
        AudioConnectConfig::HostPort { host, .. } => {
            let port_text = u64_text(port as u64);
            join3(host.as_str(), ":", port_text.as_str())
        },
    }
}

/// Whether the rig is the selected one.
pub fn is_selected(selected: &Option<String>, rig_id: &str) -> (res: bool)
    ensures
        res == (opt_view(*selected) == Some(rig_id@)),
{
    match selected {
        Some(s) => str_eq(s.as_str(), rig_id),
        None => false,
    }
}

// ---------------------------------------------------------------------------------------------
// History frames
// ---------------------------------------------------------------------------------------------

/// A message type and its payload.
#[derive(Debug)]
pub struct HistoryFrame {
    pub msg_type: u8,
    pub payload: Vec<u8>,
}

/// A frame's type and payload.
pub open spec fn frame_views(frames: Seq<HistoryFrame>) -> Seq<(u8, Seq<u8>)> {
    frames.map_values(|f: HistoryFrame| (f.msg_type, f.payload@))
}

/// The number whose four bytes, the highest first, start at position `i`.
pub open spec fn be32_at(s: Seq<u8>, i: int) -> nat {
    (s[i] * 0x100_0000 + s[i + 1] * 0x1_0000 + s[i + 2] * 0x100 + s[i + 3]) as nat
}

/// The frames of a byte stream: a type, a length in four bytes and a payload of that length, as
/// long as they are complete.
pub open spec fn frames_of(s: Seq<u8>) -> Seq<(u8, Seq<u8>)>
    decreases s.len(),
{
    if s.len() < 5 || 5 + be32_at(s, 1) > s.len() {
        Seq::empty()
    } else {
        let n = be32_at(s, 1) as int;
        seq![(s[0], s.subrange(5, 5 + n))] + frames_of(s.skip(5 + n))
    }
}

/// The complete frames of a byte stream.
pub fn split_frames(data: &[u8]) -> (res: Vec<HistoryFrame>)
    ensures
        frame_views(res@) == frames_of(data@),
{
    let mut out: Vec<HistoryFrame> = Vec::new();
    let n: usize = data.len();
    let mut pos: usize = 0;
    assert(data@.skip(0) =~= data@);
    assert(frames_of(data@) =~= frame_views(out@) + frames_of(data@.skip(0)));
    while n - pos >= 5
        invariant_except_break
            pos <= n,
            n == data@.len(),
            frames_of(data@) == frame_views(out@) + frames_of(data@.skip(pos as int)),
        ensures
            frames_of(data@) == frame_views(out@),
        decreases n - pos,
    {
        let ghost rest = data@.skip(pos as int);
        let len64: u64 = (data[pos + 1] as u64) * 0x100_0000 + (data[pos + 2] as u64) * 0x1_0000 + (
        data[pos + 3] as u64) * 0x100 + (data[pos + 4] as u64);
        assert(be32_at(rest, 1) == len64) by {
            assert(rest[1] == data@[pos + 1] && rest[2] == data@[pos + 2] && rest[3] == data@[pos
                + 3] && rest[4] == data@[pos + 4]);
        }
        if len64 > (n - pos - 5) as u64 {
            assert(frames_of(rest) =~= Seq::<(u8, Seq<u8>)>::empty());
            assert(frame_views(out@) + Seq::<(u8, Seq<u8>)>::empty() =~= frame_views(out@));
            break ;
        }
        let len: usize = len64 as usize;
        let mut payload: Vec<u8> = Vec::new();
        let mut i: usize = 0;
        while i < len
            invariant
                i <= len,
                pos + 5 + len <= n,
                n == data@.len(),
                payload@ == data@.subrange(pos + 5, pos + 5 + i),
            decreases len - i,
        {
            payload.push(data[pos + 5 + i]);
            i = i + 1;
        }
        let ghost before = frame_views(out@);
        let ghost frame = (data@[pos as int], payload@);
        out.push(HistoryFrame { msg_type: data[pos], payload });
        proof {
            assert(rest.subrange(5, 5 + len) =~= data@.subrange(pos + 5, pos + 5 + len));
            assert(rest.skip(5 + len) =~= data@.skip(pos + 5 + len));
            assert(frame_views(out@) =~= before.push(frame));
            assert(frames_of(rest) == seq![frame] + frames_of(rest.skip(5 + len)));
            assert(before + (seq![frame] + frames_of(rest.skip(5 + len))) =~= before.push(frame)
                + frames_of(rest.skip(5 + len)));
        }
        pos = pos + 5 + len;
        assert(n - pos < 5 ==> frames_of(data@.skip(pos as int)) =~= Seq::<(u8, Seq<u8>)>::empty());
        assert(frame_views(out@) + Seq::<(u8, Seq<u8>)>::empty() =~= frame_views(out@));
    }
    out
}

/// The bytes of a frame.
pub open spec fn frame_bytes(frame: (u8, Seq<u8>)) -> Seq<u8> {
    let n = frame.1.len() as int;
    seq![
        frame.0,
        (n / 0x100_0000) as u8,
        ((n / 0x1_0000) % 0x100) as u8,
        ((n / 0x100) % 0x100) as u8,
        (n % 0x100) as u8,
    ] + frame.1
}

/// The bytes of frames, one after another.
pub open spec fn stream_bytes(frames: Seq<(u8, Seq<u8>)>) -> Seq<u8>
    decreases frames.len(),
{
    if frames.len() == 0 {
        Seq::empty()
    } else {
        frame_bytes(frames[0]) + stream_bytes(frames.drop_first())
    }
}

/// A stream of frames is split into those frames again, whatever incomplete bytes follow.
pub proof fn frames_read_back(frames: Seq<(u8, Seq<u8>)>, tail: Seq<u8>)
    requires
        forall|i: int| 0 <= i < frames.len() ==> (#[trigger] frames[i]).1.len() < 0x1_0000_0000,
        frames_of(tail).len() == 0,
    ensures
        frames_of(stream_bytes(frames) + tail) == frames,
    decreases frames.len(),
{
    if frames.len() == 0 {
        assert(stream_bytes(frames) + tail =~= tail);
        assert(frames =~= Seq::<(u8, Seq<u8>)>::empty());
        assert(frames_of(tail) =~= frames);
    } else {
        let f = frames[0];
        let n = f.1.len() as int;
        let rest = frames.drop_first();
        assert forall|i: int| 0 <= i < rest.len() implies (#[trigger] rest[i]).1.len()
            < 0x1_0000_0000 by {
            assert(rest[i] == frames[i + 1]);
        }
        frames_read_back(rest, tail);
        let s = stream_bytes(frames) + tail;
        assert(s =~= frame_bytes(f) + (stream_bytes(rest) + tail));
        assert(f.1.len() < 0x1_0000_0000);
        assert(s[1] == (n / 0x100_0000) as u8 && s[2] == ((n / 0x1_0000) % 0x100) as u8 && s[3] == ((n
            / 0x100) % 0x100) as u8 && s[4] == (n % 0x100) as u8);
        assert(be32_at(s, 1) == n);
        assert(s.subrange(5, 5 + n) =~= f.1);
        assert(s.skip(5 + n) =~= stream_bytes(rest) + tail);
        assert(s[0] == f.0);
        assert(seq![f] + rest =~= frames);
    }
}

/// The frames of a compressed history, where it can be read.
pub fn history_frames(payload: &[u8]) -> (res: Vec<HistoryFrame>)
    ensures
        frame_views(res@) == (match gunzipped(payload@) {
            Some(data) => frames_of(data),
            None => Seq::empty(),
        }),
{
    match gunzip_bytes(payload) {
        Some(data) => split_frames(data.as_slice()),
        None => {
            let out: Vec<HistoryFrame> = Vec::new();
            assert(frame_views(out@) =~= Seq::<(u8, Seq<u8>)>::empty());
            out
        },
    }
}

// ---------------------------------------------------------------------------------------------
// Virtual channel subscriptions
// ---------------------------------------------------------------------------------------------

/// A virtual channel that is to stay subscribed across reconnects.
#[derive(Debug)]
pub struct ActiveVChanSub {
    pub freq_hz: u64,
    pub mode: String,
    pub bandwidth_hz: u32,
    pub hidden: bool,
    pub decoder_kinds: Vec<String>,
}

/// What a subscription says.
#[verifier::ext_equal]
pub struct SubView {
    pub freq_hz: u64,
    pub mode: Seq<char>,
    pub bandwidth_hz: u32,
    pub hidden: bool,
    pub decoder_kinds: Seq<Seq<char>>,
}

impl View for ActiveVChanSub {
    type V = SubView;

    open spec fn view(&self) -> SubView {
        SubView {
            freq_hz: self.freq_hz,
            mode: self.mode@,
            bandwidth_hz: self.bandwidth_hz,
            hidden: self.hidden,
            decoder_kinds: list_view(self.decoder_kinds@),
        }
    }
}

/// A message about a virtual channel to the server.
#[derive(Debug)]
pub enum VChanMessage {
    Subscribe {
        uuid: u128,
        freq_hz: u64,
        mode: String,
        hidden: bool,
        decoder_kinds: Vec<String>,
        bandwidth_hz: u32,
    },
    Unsubscribe(u128),
    Remove(u128),
    Freq { uuid: u128, freq_hz: u64 },
    Mode { uuid: u128, mode: String },
    Bandwidth { uuid: u128, bandwidth_hz: u32 },
}

/// What a message says.
#[verifier::ext_equal]
pub enum MessageView {
    Subscribe { uuid: u128, sub: SubView },
    Unsubscribe(u128),
    Remove(u128),
    Freq { uuid: u128, freq_hz: u64 },
    Mode { uuid: u128, mode: Seq<char> },
    Bandwidth { uuid: u128, bandwidth_hz: u32 },
}

impl View for VChanMessage {
    type V = MessageView;

    open spec fn view(&self) -> MessageView {
        match self {
            VChanMessage::Subscribe { uuid, freq_hz, mode, hidden, decoder_kinds, bandwidth_hz } =>
                MessageView::Subscribe {
                    uuid: *uuid,
                    sub: SubView {
                        freq_hz: *freq_hz,
                        mode: mode@,
                        bandwidth_hz: *bandwidth_hz,
                        hidden: *hidden,
                        decoder_kinds: list_view(decoder_kinds@),
                    },
                },
            VChanMessage::Unsubscribe(uuid) => MessageView::Unsubscribe(*uuid),
            VChanMessage::Remove(uuid) => MessageView::Remove(*uuid),
            VChanMessage::Freq { uuid, freq_hz } => MessageView::Freq {
                uuid: *uuid,
                freq_hz: *freq_hz,
            },
            VChanMessage::Mode { uuid, mode } => MessageView::Mode { uuid: *uuid, mode: mode@ },
            VChanMessage::Bandwidth { uuid, bandwidth_hz } => MessageView::Bandwidth {
                uuid: *uuid,
                bandwidth_hz: *bandwidth_hz,
            },
        }
    }
}

/// What a list of messages says.
pub open spec fn message_views(messages: Seq<VChanMessage>) -> Seq<MessageView> {
    messages.map_values(|m: VChanMessage| m@)
}

/// What a command came to.
#[derive(Debug)]
pub struct Applied {
    /// The connection goes on.
    pub goes_on: bool,
    /// The channel that is closed, where it was removed.
    pub closed: Option<u128>,
}

/// The subscriptions of a rig's audio connection, and those among them that were sent again when it
/// was last made and for which no new command has come since.
#[derive(Debug)]
pub struct AudioSession {
    pub active_subs: IdTable<ActiveVChanSub>,
    pub resubscribed: Vec<u128>,
}

/// The state of an audio session.
#[verifier::ext_equal]
pub struct SessionView {
    pub subs: Map<u128, SubView>,
    pub resubscribed: Set<u128>,
}

/// The messages that subscribe channels again: for each its subscription and, where it has one, its
/// bandwidth.
pub open spec fn resubscribe_messages(entries: Seq<(u128, ActiveVChanSub)>) -> Seq<MessageView>
    decreases entries.len(),
{
    if entries.len() == 0 {
        Seq::empty()
    } else {
        let (uuid, sub) = entries.last();
        let rest = resubscribe_messages(entries.drop_last()).push(
            MessageView::Subscribe { uuid, sub: sub@ },
        );
        if sub.bandwidth_hz > 0 {
            rest.push(MessageView::Bandwidth { uuid, bandwidth_hz: sub.bandwidth_hz })
        } else {
            rest
        }
    }
}

/// The subscription that a command makes, if it makes one.
pub open spec fn sub_of(cmd: VChanCmdView) -> Option<(u128, SubView)> {
    match cmd {
        VChanCmdView::Subscribe { uuid, freq_hz, mode, bandwidth_hz, decoder_kinds } => Some(
            (uuid, SubView { freq_hz, mode, bandwidth_hz, hidden: false, decoder_kinds }),
        ),
        VChanCmdView::SubscribeBackground { uuid, freq_hz, mode, bandwidth_hz, decoder_kinds } => Some(
            (uuid, SubView { freq_hz, mode, bandwidth_hz, hidden: true, decoder_kinds }),
        ),
        _ => None,
    }
}

/// The message a command calls for. A subscription that was just sent again needs none.
pub open spec fn message_of(s: SessionView, cmd: VChanCmdView) -> Option<MessageView> {
    match cmd {
        VChanCmdView::Unsubscribe(uuid) => Some(MessageView::Unsubscribe(uuid)),
        VChanCmdView::Remove(uuid) => Some(MessageView::Remove(uuid)),
        VChanCmdView::SetFreq { uuid, freq_hz } => Some(MessageView::Freq { uuid, freq_hz }),
        VChanCmdView::SetMode { uuid, mode } => Some(MessageView::Mode { uuid, mode }),
        VChanCmdView::SetBandwidth { uuid, bandwidth_hz } => Some(
            MessageView::Bandwidth { uuid, bandwidth_hz },
        ),
        _ => {
            let (uuid, sub) = sub_of(cmd)->0;
            if s.resubscribed.contains(uuid) {
                None
            } else {
                Some(MessageView::Subscribe { uuid, sub })
            }
        },
    }
}

/// The session after a command whose message, if it called for one, was written or not.
pub open spec fn after_command(s: SessionView, cmd: VChanCmdView, written: bool) -> SessionView {
    match cmd {
        VChanCmdView::Unsubscribe(_) => s,
        VChanCmdView::Remove(uuid) => if written {
            SessionView { subs: s.subs.remove(uuid), ..s }
        } else {
            s
        },
        VChanCmdView::SetFreq { uuid, freq_hz } => if s.subs.contains_key(uuid) {
            SessionView {
                subs: s.subs.insert(uuid, SubView { freq_hz, ..s.subs[uuid] }),
                ..s
            }
        } else {
            s
        },
        VChanCmdView::SetMode { uuid, mode } => if s.subs.contains_key(uuid) {
            SessionView { subs: s.subs.insert(uuid, SubView { mode, ..s.subs[uuid] }), ..s }
        } else {
            s
        },
        VChanCmdView::SetBandwidth { uuid, bandwidth_hz } => if s.subs.contains_key(uuid) {
            SessionView {
                subs: s.subs.insert(uuid, SubView { bandwidth_hz, ..s.subs[uuid] }),
                ..s
            }
        } else {
            s
        },
        _ => {
            let (uuid, sub) = sub_of(cmd)->0;
            SessionView {
                subs: s.subs.insert(uuid, sub),
                resubscribed: s.resubscribed.remove(uuid),
            }
        },
    }
}

fn ids_contain(ids: &Vec<u128>, id: u128) -> (res: bool)
    ensures
        res == ids@.contains(id),
{
    let mut i: usize = 0;
    while i < ids.len()
        invariant
            i <= ids@.len(),
            forall|j: int| 0 <= j < i ==> ids@[j] != id,
        decreases ids@.len() - i,
    {
        if ids[i] == id {
            return true;
        }
        i = i + 1;
    }
    false
}

fn without_id(ids: &Vec<u128>, id: u128) -> (res: Vec<u128>)
    ensures
        res@.to_set() == ids@.to_set().remove(id),
{
    let mut out: Vec<u128> = Vec::new();
    let mut i: usize = 0;
    while i < ids.len()
        invariant
            i <= ids@.len(),
            forall|x: u128| #[trigger] out@.contains(x) <==> x != id && ids@.take(i as int).contains(x),
        decreases ids@.len() - i,
    {
        let ghost before = out@;
        let ghost head = ids@.take(i as int);
        let ghost next = ids@.take(i + 1);
        if ids[i] != id {
            out.push(ids[i]);
        }
        proof {
            assert(next =~= head.push(ids@[i as int]));
            assert forall|x: u128| #[trigger] out@.contains(x) <==> x != id && next.contains(x) by {
                assert(before.contains(x) <==> x != id && head.contains(x));
                if head.contains(x) {
                    let k = choose|k: int| 0 <= k < head.len() && head[k] == x;
                    assert(next[k] == x);
                }
                if before.contains(x) {
                    let k = choose|k: int| 0 <= k < before.len() && before[k] == x;
                    assert(out@[k] == x);
                }
                if x == ids@[i as int] {
                    assert(next[i as int] == x);
                    if x != id {
                        assert(out@[before.len() as int] == x);
                    }
                }
                if next.contains(x) && x != ids@[i as int] {
                    let k = choose|k: int| 0 <= k < next.len() && next[k] == x;
                    assert(head[k] == x);
                }
                if out@.contains(x) && x != ids@[i as int] {
                    let k = choose|k: int| 0 <= k < out@.len() && out@[k] == x;
                    assert(before[k] == x);
                }
            }
        }
        i = i + 1;
    }
    proof {
        assert(ids@.take(ids@.len() as int) =~= ids@);
        assert(out@.to_set() =~= ids@.to_set().remove(id));
    }
    out
}

impl AudioSession {
    /// The table is well formed.
    pub open spec fn wf(&self) -> bool {
        self.active_subs.wf()
    }

    /// The state of the session.
    pub open spec fn state(&self) -> SessionView {
        SessionView {
            subs: self.active_subs@.map_values(|s: ActiveVChanSub| s@),
            resubscribed: self.resubscribed@.to_set(),
        }
    }

    /// No subscription yet.
    pub fn new() -> (res: Self)
        ensures
            res.wf(),
            res.state().subs == Map::<u128, SubView>::empty(),
            res.state().resubscribed == Set::<u128>::empty(),
            res.active_subs.entries@.len() == 0,
    {
        let res = AudioSession { active_subs: IdTable::new(), resubscribed: Vec::new() };
        assert(res.state().subs =~= Map::<u128, SubView>::empty());
        assert(res.state().resubscribed =~= Set::<u128>::empty());
        res
    }

    /// The messages to send when a connection has been made: every subscription once more.
    pub fn connected(&mut self) -> (res: Vec<VChanMessage>)
        requires
            old(self).wf(),
        ensures
            final(self).wf(),
            final(self).active_subs == old(self).active_subs,
            message_views(res@) == resubscribe_messages(old(self).active_subs.entries@),
            final(self).state().subs == old(self).state().subs,
            final(self).state().resubscribed == old(self).state().subs.dom(),
    {
        let ghost entries = self.active_subs.entries@;
        let mut out: Vec<VChanMessage> = Vec::new();
        let mut ids: Vec<u128> = Vec::new();
        let mut i: usize = 0;
        assert(message_views(out@) =~= resubscribe_messages(entries.take(0)));
        while i < self.active_subs.entries.len()
            invariant
                i <= entries.len(),
                *self == *old(self),
                entries == self.active_subs.entries@,
                message_views(out@) == resubscribe_messages(entries.take(i as int)),
                ids@.len() == i,
                forall|j: int| 0 <= j < i ==> #[trigger] ids@[j] == entries[j].0,
            decreases entries.len() - i,
        {
            let uuid: u128 = self.active_subs.entries[i].0;
            let sub = &self.active_subs.entries[i].1;
            let ghost before = message_views(out@);
            assert(entries.take(i + 1).drop_last() =~= entries.take(i as int));
            out.push(
                VChanMessage::Subscribe {
                    uuid,
                    freq_hz: sub.freq_hz,
                    mode: sub.mode.clone(),
                    hidden: sub.hidden,
                    decoder_kinds: list_clone(&sub.decoder_kinds),
                    bandwidth_hz: sub.bandwidth_hz,
                },
            );
            let ghost mid = before.push(MessageView::Subscribe { uuid, sub: sub@ });
            assert(message_views(out@) =~= mid);
            if sub.bandwidth_hz > 0 {
                out.push(VChanMessage::Bandwidth { uuid, bandwidth_hz: sub.bandwidth_hz });
                assert(message_views(out@) =~= mid.push(
                    MessageView::Bandwidth { uuid, bandwidth_hz: sub.bandwidth_hz },
                ));
            }
            ids.push(uuid);
            i = i + 1;
        }
        proof {
            assert(entries.take(entries.len() as int) =~= entries);
            let dom = old(self).state().subs.dom();
            assert forall|x: u128| ids@.to_set().contains(x) == dom.contains(x) by {
                if ids@.contains(x) {
                    let j = choose|j: int| 0 <= j < ids@.len() && ids@[j] == x;
                    lemma_id_entry(entries, j);
                }
                if dom.contains(x) {
                    let j = id_index(entries, x);
                    assert(entries[j].0 == x);
                    assert(ids@[j] == x);
                }
            }
            assert(ids@.to_set() =~= dom);
        }
        self.resubscribed = ids;
        out
    }

    /// The message a command calls for.
    pub fn message(&self, cmd: &VChanAudioCmd) -> (res: Option<VChanMessage>)
        ensures
            (match res {
                Some(m) => Some(m@),
                None => None,
            }) == message_of(self.state(), cmd@),
    {
        match cmd {
            VChanAudioCmd::Subscribe { uuid, freq_hz, mode, bandwidth_hz, decoder_kinds } => {
                if ids_contain(&self.resubscribed, *uuid) {
                    None
                } else {
                    Some(
                        VChanMessage::Subscribe {
                            uuid: *uuid,
                            freq_hz: *freq_hz,
                            mode: mode.clone(),
                            hidden: false,
                            decoder_kinds: list_clone(decoder_kinds),
                            bandwidth_hz: *bandwidth_hz,
                        },
                    )
                }
            },
            VChanAudioCmd::SubscribeBackground { uuid, freq_hz, mode, bandwidth_hz, decoder_kinds } => {
                if ids_contain(&self.resubscribed, *uuid) {
                    None
                } else {
                    Some(
                        VChanMessage::Subscribe {
                            uuid: *uuid,
                            freq_hz: *freq_hz,
                            mode: mode.clone(),
                            hidden: true,
                            decoder_kinds: list_clone(decoder_kinds),
                            bandwidth_hz: *bandwidth_hz,
                        },
                    )
                }
            },
            VChanAudioCmd::Unsubscribe(uuid) => Some(VChanMessage::Unsubscribe(*uuid)),
            VChanAudioCmd::Remove(uuid) => Some(VChanMessage::Remove(*uuid)),
            VChanAudioCmd::SetFreq { uuid, freq_hz } => Some(
                VChanMessage::Freq { uuid: *uuid, freq_hz: *freq_hz },
            ),
            VChanAudioCmd::SetMode { uuid, mode } => Some(
                VChanMessage::Mode { uuid: *uuid, mode: mode.clone() },
            ),
            VChanAudioCmd::SetBandwidth { uuid, bandwidth_hz } => Some(
                VChanMessage::Bandwidth { uuid: *uuid, bandwidth_hz: *bandwidth_hz },
            ),
        }
    }

    fn subscribe(&mut self, uuid: u128, sub: ActiveVChanSub)
        requires
            old(self).wf(),
        ensures
            final(self).wf(),
            final(self).state() == (SessionView {
                subs: old(self).state().subs.insert(uuid, sub@),
                resubscribed: old(self).state().resubscribed.remove(uuid),
            }),
    {
        let ghost sview = sub@;
        self.resubscribed = without_id(&self.resubscribed, uuid);
        self.active_subs.insert(uuid, sub);
        assert(self.state().subs =~= old(self).state().subs.insert(uuid, sview));
    }

    /// Records a command. `written` says whether its message, if it called for one, was written.
    /// The connection goes on unless that failed, and a channel whose removal was written is closed.
    pub fn apply(&mut self, cmd: VChanAudioCmd, written: bool) -> (res: Applied)
        requires
            old(self).wf(),
        ensures
            final(self).wf(),
            final(self).state() == after_command(old(self).state(), cmd@, written),
            res.goes_on == (written || message_of(old(self).state(), cmd@) is None),
            res.closed == (match cmd {
                VChanAudioCmd::Remove(uuid) => if written {
                    Some(uuid)
                } else {
                    None
                },
                _ => None,
            }),
    {
        let closed: Option<u128> = match &cmd {
            VChanAudioCmd::Remove(uuid) => if written {
                Some(*uuid)
            } else {
                None
            },
            _ => None,
        };
        let goes_on = match cmd {
            VChanAudioCmd::Subscribe { uuid, freq_hz, mode, bandwidth_hz, decoder_kinds } => {
                let known = ids_contain(&self.resubscribed, uuid);
                self.subscribe(
                    uuid,
                    ActiveVChanSub { freq_hz, mode, bandwidth_hz, hidden: false, decoder_kinds },
                );
                known || written
            },
            VChanAudioCmd::SubscribeBackground { uuid, freq_hz, mode, bandwidth_hz, decoder_kinds } => {
                let known = ids_contain(&self.resubscribed, uuid);
                self.subscribe(
                    uuid,
                    ActiveVChanSub { freq_hz, mode, bandwidth_hz, hidden: true, decoder_kinds },
                );
                known || written
            },
            VChanAudioCmd::Unsubscribe(_) => written,
            VChanAudioCmd::Remove(uuid) => {
                if written {
                    let _ = self.active_subs.remove(uuid);
                    assert(self.state().subs =~= old(self).state().subs.remove(uuid));
                }
                written
            },
            VChanAudioCmd::SetFreq { uuid, freq_hz } => {
                match self.active_subs.remove(uuid) {
                    Some(sub) => {
                        let changed = ActiveVChanSub {
                            freq_hz,
                            mode: sub.mode,
                            bandwidth_hz: sub.bandwidth_hz,
                            hidden: sub.hidden,
                            decoder_kinds: sub.decoder_kinds,
                        };
                        self.active_subs.insert(uuid, changed);
                    },
                    None => {},
                }
                assert(self.state().subs =~= after_command(old(self).state(), cmd@, written).subs);
                written
            },
            VChanAudioCmd::SetMode { uuid, mode } => {
                match self.active_subs.remove(uuid) {
                    Some(sub) => {
                        let changed = ActiveVChanSub {
                            freq_hz: sub.freq_hz,
                            mode,
                            bandwidth_hz: sub.bandwidth_hz,
                            hidden: sub.hidden,
                            decoder_kinds: sub.decoder_kinds,
                        };
                        self.active_subs.insert(uuid, changed);
                    },
                    None => {},
                }
                assert(self.state().subs =~= after_command(old(self).state(), cmd@, written).subs);
                written
            },
            VChanAudioCmd::SetBandwidth { uuid, bandwidth_hz } => {
                match self.active_subs.remove(uuid) {
                    Some(sub) => {
                        let changed = ActiveVChanSub {
                            freq_hz: sub.freq_hz,
                            mode: sub.mode,
                            bandwidth_hz,
                            hidden: sub.hidden,
                            decoder_kinds: sub.decoder_kinds,
                        };
                        self.active_subs.insert(uuid, changed);
                    },
                    None => {},
                }
                assert(self.state().subs =~= after_command(old(self).state(), cmd@, written).subs);
                written
            },
        };
        Applied { goes_on, closed }
    }
}

/// A channel that is subscribed stays so, with what the subscription said, until a command for the
/// same channel comes.
pub proof fn other_channels_untouched(
    s: SessionView,
    cmd: VChanCmdView,
    written: bool,
    other: u128,
)
    requires
        other != cmd.channel(),
    ensures
        after_command(s, cmd, written).subs.contains_key(other) == s.subs.contains_key(other),
        s.subs.contains_key(other) ==> after_command(s, cmd, written).subs[other] == s.subs[other],
        after_command(s, cmd, written).resubscribed.contains(other) == s.resubscribed.contains(
            other,
        ),
{
}

/// A subscription command after a reconnect is sent again at most once: the second of two equal
/// commands always calls for a message.
pub proof fn resubscribed_only_once(s: SessionView, cmd: VChanCmdView, written: bool)
    requires
        sub_of(cmd) is Some,
    ensures
        message_of(after_command(s, cmd, written), cmd) is Some,
{
}

// ---------------------------------------------------------------------------------------------
// Incoming messages
// ---------------------------------------------------------------------------------------------

/// The kinds of messages that arrive on an audio connection.
#[derive(Clone, Copy, Debug, PartialEq, Eq, Structural)]
pub enum AudioMsgKind {
    StreamInfo,
    RxFrame,
    ChannelFrame,
    ChannelAllocated,
    ChannelDestroyed,
    History,
    Decode,
    Other,
}

/// Why an audio connection is dropped at its start.
#[derive(Clone, Copy, Debug, PartialEq, Eq, Structural)]
pub enum AudioError {
    ExpectedStreamInfo,
}

impl AudioError {
    /// The text of the error.
    pub fn message(&self) -> (res: String)
        ensures
            res@ == "expected StreamInfo as first message"@,
    {
        own("expected StreamInfo as first message")
    }
}

/// The first message of a connection has to describe the stream.
pub fn check_first_message(kind: AudioMsgKind) -> (res: Result<(), AudioError>)
    ensures
        res is Ok <==> kind == AudioMsgKind::StreamInfo,
        res is Err ==> res->Err_0 == AudioError::ExpectedStreamInfo,
{
    if kind == AudioMsgKind::StreamInfo {
        Ok(())
    } else {
        Err(AudioError::ExpectedStreamInfo)
    }
}

/// What to do with an incoming message.
#[derive(Clone, Copy, Debug, PartialEq, Eq, Structural)]
pub enum RxAction {
    /// Publish the payload on the rig's channel, and on the global one where `global`.
    PublishAudio { global: bool },
    /// Publish the payload on the virtual channel's stream, if it is open.
    PublishChannel { uuid: u128 },
    /// Open a stream for the virtual channel, unless it is open.
    OpenChannel { uuid: u128 },
    /// Close the virtual channel's stream and tell that the channel is gone.
    CloseChannel { uuid: u128 },
    /// Replay the frames of the compressed history.
    Replay,
    /// Publish the decoded message.
    PublishDecode,
    /// Nothing to do.
    Ignore,
    /// Nothing to do but to note an unexpected message.
    Unexpected,
}

/// Decides what to do with an incoming message. `uuid` is the channel that a channel message names,
/// where it could be read.
pub fn rx_action(kind: AudioMsgKind, selected: bool, uuid: Option<u128>) -> (res: RxAction)
    ensures
        res == (match kind {
            AudioMsgKind::RxFrame => RxAction::PublishAudio { global: selected },
            AudioMsgKind::ChannelFrame => match uuid {
                Some(u) => RxAction::PublishChannel { uuid: u },
                None => RxAction::Ignore,
            },
            AudioMsgKind::ChannelAllocated => match uuid {
                Some(u) => RxAction::OpenChannel { uuid: u },
                None => RxAction::Ignore,
            },
            AudioMsgKind::ChannelDestroyed => match uuid {
                Some(u) => RxAction::CloseChannel { uuid: u },
                None => RxAction::Ignore,
            },
            AudioMsgKind::History => RxAction::Replay,
            AudioMsgKind::Decode => RxAction::PublishDecode,
            AudioMsgKind::StreamInfo => RxAction::Unexpected,
            AudioMsgKind::Other => RxAction::Unexpected,
        }),
{
    match kind {
        AudioMsgKind::RxFrame => RxAction::PublishAudio { global: selected },
        AudioMsgKind::ChannelFrame => match uuid {
            Some(u) => RxAction::PublishChannel { uuid: u },
            None => RxAction::Ignore,
        },
        AudioMsgKind::ChannelAllocated => match uuid {
            Some(u) => RxAction::OpenChannel { uuid: u },
            None => RxAction::Ignore,
        },
        AudioMsgKind::ChannelDestroyed => match uuid {
            Some(u) => RxAction::CloseChannel { uuid: u },
            None => RxAction::Ignore,
        },
        AudioMsgKind::History => RxAction::Replay,
        AudioMsgKind::Decode => RxAction::PublishDecode,
        AudioMsgKind::StreamInfo => RxAction::Unexpected,
        AudioMsgKind::Other => RxAction::Unexpected,
    }
}

/// What can happen while an audio connection is open, besides incoming messages and channel
/// commands.
#[derive(Clone, Copy, Debug, PartialEq, Eq, Structural)]
pub enum LinkEvent {
    /// The shutdown flag was set to this value.
    ShutdownFlag(bool),
    /// Whoever could set the shutdown flag is gone.
    ShutdownClosed,
    /// A frame to transmit has come, and was written or not.
    TxFrame { written: bool },
    /// No more frames to transmit will come.
    TxClosed,
    /// No more channel commands will come.
    CommandsClosed,
    /// Reading has ended.
    ReaderEnded,
}

/// What becomes of the connection.
#[derive(Clone, Copy, Debug, PartialEq, Eq, Structural)]
pub enum LinkStep {
    Continue,
    /// Stop reading and leave.
    Abort,
    /// Leave.
    Leave,
}

/// Who is told of the parameters of a rig's stream.
#[derive(Clone, Copy, Debug, PartialEq, Eq, Structural)]
pub struct InfoNotice {
    /// What those are told who listen to the rig.
    pub rig: Option<AudioStreamInfo>,
    /// What those are told who listen to the selected rig, where they are told anything.
    pub shared: Option<Option<AudioStreamInfo>>,
}

/// Who is told of the parameters of a rig's stream, when its connection is made and, without any,
/// when it has ended. The parameters of the selected rig are also the shared ones.
pub fn info_notice(info: Option<AudioStreamInfo>, selected: &Option<String>, rig_id: &str) -> (res:
    InfoNotice)
    ensures
        res.rig == info,
        res.shared == (if opt_view(*selected) == Some(rig_id@) {
            Some(info)
        } else {
            None
        }),
{
    let shared: Option<Option<AudioStreamInfo>> = if is_selected(selected, rig_id) {
        Some(info)
    } else {
        None
    };
    InfoNotice { rig: info, shared }
}

/// Whether frames to transmit go to a rig: they go to the selected one.
pub open spec fn tx_goes_to(selected: Option<Seq<char>>, rig_id: Seq<char>) -> bool {
    selected == Some(rig_id)
}

/// Whether the connection of a rig takes frames to transmit. One that does not leaves them to the
/// connection of the selected rig.
pub fn takes_tx_frames(selected: &Option<String>, rig_id: &str) -> (res: bool)
    ensures
        res == tx_goes_to(opt_view(*selected), rig_id@),
{
    is_selected(selected, rig_id)
}

/// No two rigs transmit at once, and none does where none is selected.
pub proof fn one_rig_transmits(selected: Option<Seq<char>>, a: Seq<char>, b: Seq<char>)
    ensures
        tx_goes_to(selected, a) && tx_goes_to(selected, b) ==> a == b,
        selected is None ==> !tx_goes_to(selected, a),
{
}

/// Decides what becomes of an open connection.
pub fn link_step(event: LinkEvent) -> (res: LinkStep)
    ensures
        res == (match event {
            LinkEvent::ShutdownFlag(set) => if set {
                LinkStep::Abort
            } else {
                LinkStep::Continue
            },
            LinkEvent::ShutdownClosed => LinkStep::Abort,
            LinkEvent::TxFrame { written } => if written {
                LinkStep::Continue
            } else {
                LinkStep::Leave
            },
            LinkEvent::TxClosed => LinkStep::Leave,
            LinkEvent::CommandsClosed => LinkStep::Continue,
            LinkEvent::ReaderEnded => LinkStep::Leave,
        }),
{
    match event {
        LinkEvent::ShutdownFlag(set) => if set {
            LinkStep::Abort
        } else {
            LinkStep::Continue
        },
        LinkEvent::ShutdownClosed => LinkStep::Abort,
        LinkEvent::TxFrame { written } => if written {
            LinkStep::Continue
        } else {
            LinkStep::Leave
        },
        LinkEvent::TxClosed => LinkStep::Leave,
        LinkEvent::CommandsClosed => LinkStep::Continue,
        LinkEvent::ReaderEnded => LinkStep::Leave,
    }
}

// ---------------------------------------------------------------------------------------------
// What the audio connections come to
// ---------------------------------------------------------------------------------------------

/// A known rig for which a port is configured has its audio there, whatever port the server names.
pub proof fn configured_ports_come_first(
    known: Seq<KnownRig>,
    ports: Map<Seq<char>, u16>,
    default_port: u16,
    i: int,
)
    requires
        0 <= i < known.len(),
    ensures
        rig_ports_of(known, ports, default_port).contains_key(known[i].rig_id@),
        ports.contains_key(known[i].rig_id@) ==> rig_ports_of(
            known,
            ports,
            default_port,
        )[known[i].rig_id@] == ports[known[i].rig_id@],
    decreases known.len(),
{
    if i < known.len() - 1 {
        assert(known.drop_last()[i] == known[i]);
        configured_ports_come_first(known.drop_last(), ports, default_port, i);
    }
}

/// A known rig for which no port is configured has its audio at the port that the server names, and at
/// the default one where the server names none.
pub proof fn other_ports_are_the_servers(
    known: Seq<KnownRig>,
    ports: Map<Seq<char>, u16>,
    default_port: u16,
    i: int,
)
    requires
        0 <= i < known.len(),
        !ports.contains_key(known[i].rig_id@),
        forall|j: int| i < j < known.len() ==> (#[trigger] known[j]).rig_id@ != known[i].rig_id@,
    ensures
        known[i].audio_port is Some ==> rig_ports_of(known, ports, default_port)[known[i].rig_id@]
            == known[i].audio_port->0,
        known[i].audio_port is None ==> rig_ports_of(known, ports, default_port)[known[i].rig_id@]
            == default_port,
    decreases known.len(),
{
    if i < known.len() - 1 {
        let front = known.drop_last();
        assert(front[i] == known[i]);
        assert forall|j: int| i < j < front.len() implies (#[trigger] front[j]).rig_id@
            != front[i].rig_id@ by {
            assert(front[j] == known[j]);
        }
        assert(known[known.len() - 1].rig_id@ != known[i].rig_id@);
        other_ports_are_the_servers(front, ports, default_port, i);
    }
}

/// Only rigs that are known have an audio connection.
pub proof fn only_known_rigs_have_audio(
    known: Seq<KnownRig>,
    ports: Map<Seq<char>, u16>,
    default_port: u16,
    rig: Seq<char>,
)
    requires
        rig_ports_of(known, ports, default_port).contains_key(rig),
    ensures
        exists|i: int| 0 <= i < known.len() && (#[trigger] known[i]).rig_id@ == rig,
    decreases known.len(),
{
    if known.len() > 0 {
        let front = known.drop_last();
        if known.last().rig_id@ == rig {
            assert(known[known.len() - 1].rig_id@ == rig);
        } else {
            only_known_rigs_have_audio(front, ports, default_port, rig);
            let i = choose|i: int| 0 <= i < front.len() && (#[trigger] front[i]).rig_id@ == rig;
            assert(known[i].rig_id@ == rig);
        }
    }
}

/// A connection stops where its rig is gone or has its audio at another port, and starts where the rig
/// is new or has its audio at another port.
pub proof fn connections_follow_the_rigs(
    running: Map<Seq<char>, u16>,
    current: Map<Seq<char>, u16>,
    rig: Seq<char>,
)
    ensures
        running.contains_key(rig) && !current.contains_key(rig) ==> must_stop(running, current, rig)
            && !must_start(running, current, rig),
        !running.contains_key(rig) && current.contains_key(rig) ==> must_start(
            running,
            current,
            rig,
        ) && !must_stop(running, current, rig),
        running.contains_key(rig) && current.contains_key(rig) ==> (must_stop(running, current, rig)
            <==> running[rig] != current[rig]) && (must_start(running, current, rig)
            <==> running[rig] != current[rig]),
        !running.contains_key(rig) && !current.contains_key(rig) ==> !must_stop(
            running,
            current,
            rig,
        ) && !must_start(running, current, rig),
{
}

/// An address that was given is used as it is; else the host is the server's and the port the rig's.
pub proof fn addresses_of_audio(addr: Seq<char>, host: Seq<char>, other: u16, port: u16)
    ensures
        address_of(AudioConnectView::Fixed(addr), port) == addr,
        address_of(AudioConnectView::HostPort { host, port: other }, port) == host + ":"@ + decimal(
            port as nat,
        ),
{
}

/// A stream of frames is read from its front: a type, four bytes of length with the highest first, and
/// so many bytes. A frame that is not whole ends the stream.
pub proof fn frames_are_read_from_the_front(s: Seq<u8>)
    ensures
        s.len() < 5 ==> frames_of(s).len() == 0,
        s.len() >= 5 ==> {
            let n = ((s[1] * 256 + s[2]) * 256 + s[3]) * 256 + s[4];
            &&& 5 + n > s.len() ==> frames_of(s).len() == 0
            &&& 5 + n <= s.len() ==> frames_of(s).len() > 0 && frames_of(s)[0] == (
                s[0],
                s.subrange(5, 5 + n),
            ) && frames_of(s).drop_first() == frames_of(s.skip(5 + n))
        },
{
    if s.len() >= 5 {
        let n = ((s[1] * 256 + s[2]) * 256 + s[3]) * 256 + s[4];
        assert(be32_at(s, 1) == n);
        if 5 + n <= s.len() {
            assert(frames_of(s).drop_first() =~= frames_of(s.skip(5 + n)));
        }
    }
}

/// After a connection has been made again, every subscription is sent again as it stands, and its
/// bandwidth after it where it has one.
pub proof fn subscriptions_are_sent_again(entries: Seq<(u128, ActiveVChanSub)>, i: int)
    requires
        0 <= i < entries.len(),
    ensures
        ({
            let (uuid, sub) = entries[i];
            let sent = resubscribe_messages(entries);
            &&& exists|k: int|
                0 <= k < sent.len() && #[trigger] sent[k] == (MessageView::Subscribe {
                    uuid,
                    sub: SubView {
                        freq_hz: sub.freq_hz,
                        mode: sub.mode@,
                        bandwidth_hz: sub.bandwidth_hz,
                        hidden: sub.hidden,
                        decoder_kinds: list_view(sub.decoder_kinds@),
                    },
                }) && (sub.bandwidth_hz > 0 ==> k + 1 < sent.len() && sent[k + 1] == (
                MessageView::Bandwidth { uuid, bandwidth_hz: sub.bandwidth_hz }))
            &&& entries.len() <= sent.len() <= 2 * entries.len()
        }),
    decreases entries.len(),
{
    let (uuid, sub) = entries[i];
    let front = entries.drop_last();
    let sent = resubscribe_messages(entries);
    let before = resubscribe_messages(front);
    lemma_resubscribe_count(entries);
    let m = MessageView::Subscribe {
        uuid,
        sub: SubView {
            freq_hz: sub.freq_hz,
            mode: sub.mode@,
            bandwidth_hz: sub.bandwidth_hz,
            hidden: sub.hidden,
            decoder_kinds: list_view(sub.decoder_kinds@),
        },
    };
    if i < front.len() {
        subscriptions_are_sent_again(front, i);
        assert(front[i] == entries[i]);
        let k = choose|k: int|
            0 <= k < before.len() && #[trigger] before[k] == m && (sub.bandwidth_hz > 0 ==> k + 1
                < before.len() && before[k + 1] == (MessageView::Bandwidth {
                uuid,
                bandwidth_hz: sub.bandwidth_hz,
            }));
        assert(sent[k] == m);
    } else {
        assert(sub@ =~= (SubView {
            freq_hz: sub.freq_hz,
            mode: sub.mode@,
            bandwidth_hz: sub.bandwidth_hz,
            hidden: sub.hidden,
            decoder_kinds: list_view(sub.decoder_kinds@),
        }));
        assert(sent[before.len() as int] == m);
    }
}

proof fn lemma_resubscribe_count(entries: Seq<(u128, ActiveVChanSub)>)
    ensures
        entries.len() <= resubscribe_messages(entries).len() <= 2 * entries.len(),
    decreases entries.len(),
{
    if entries.len() > 0 {
        lemma_resubscribe_count(entries.drop_last());
    }
}

/// A subscription is written with all that it says, and remembered so; one of the background is hidden.
/// It is not written where it has just been sent again.
pub proof fn subscriptions_are_written_and_remembered(
    s: SessionView,
    uuid: u128,
    freq_hz: u64,
    mode: Seq<char>,
    bandwidth_hz: u32,
    decoder_kinds: Seq<Seq<char>>,
    written: bool,
)
    ensures
        ({
            let seen = VChanCmdView::Subscribe { uuid, freq_hz, mode, bandwidth_hz, decoder_kinds };
            let hidden = VChanCmdView::SubscribeBackground {
                uuid,
                freq_hz,
                mode,
                bandwidth_hz,
                decoder_kinds,
            };
            let shown = SubView { freq_hz, mode, bandwidth_hz, hidden: false, decoder_kinds };
            let unseen = SubView { freq_hz, mode, bandwidth_hz, hidden: true, decoder_kinds };
            &&& s.resubscribed.contains(uuid) ==> message_of(s, seen) is None && message_of(
                s,
                hidden,
            ) is None
            &&& !s.resubscribed.contains(uuid) ==> message_of(s, seen) == Some(
                MessageView::Subscribe { uuid, sub: shown },
            ) && message_of(s, hidden) == Some(MessageView::Subscribe { uuid, sub: unseen })
            &&& after_command(s, seen, written).subs == s.subs.insert(uuid, shown)
            &&& after_command(s, hidden, written).subs == s.subs.insert(uuid, unseen)
            &&& !after_command(s, seen, written).resubscribed.contains(uuid)
            &&& !after_command(s, hidden, written).resubscribed.contains(uuid)
        }),
{
}

/// A change of a channel is always written, and remembered where the channel is subscribed, with
/// nothing else of it changed. A removal is remembered once it is written; unsubscribing changes
/// nothing that is remembered.
pub proof fn changes_are_written_and_remembered(
    s: SessionView,
    uuid: u128,
    freq_hz: u64,
    mode: Seq<char>,
    bandwidth_hz: u32,
    written: bool,
)
    ensures
        message_of(s, VChanCmdView::Unsubscribe(uuid)) == Some(MessageView::Unsubscribe(uuid)),
        message_of(s, VChanCmdView::Remove(uuid)) == Some(MessageView::Remove(uuid)),
        message_of(s, VChanCmdView::SetFreq { uuid, freq_hz }) == Some(
            MessageView::Freq { uuid, freq_hz },
        ),
        message_of(s, VChanCmdView::SetMode { uuid, mode }) == Some(
            MessageView::Mode { uuid, mode },
        ),
        message_of(s, VChanCmdView::SetBandwidth { uuid, bandwidth_hz }) == Some(
            MessageView::Bandwidth { uuid, bandwidth_hz },
        ),
        after_command(s, VChanCmdView::Unsubscribe(uuid), written) == s,
        after_command(s, VChanCmdView::Remove(uuid), false) == s,
        !after_command(s, VChanCmdView::Remove(uuid), true).subs.contains_key(uuid),
        s.subs.contains_key(uuid) ==> {
            let was = s.subs[uuid];
            let freq = after_command(s, VChanCmdView::SetFreq { uuid, freq_hz }, written).subs;
            let moded = after_command(s, VChanCmdView::SetMode { uuid, mode }, written).subs;
            let wide =
                after_command(s, VChanCmdView::SetBandwidth { uuid, bandwidth_hz }, written).subs;
            &&& freq.contains_key(uuid) && freq[uuid].freq_hz == freq_hz && freq[uuid].mode
                == was.mode && freq[uuid].bandwidth_hz == was.bandwidth_hz && freq[uuid].hidden
                == was.hidden && freq[uuid].decoder_kinds == was.decoder_kinds
            &&& moded.contains_key(uuid) && moded[uuid].mode == mode && moded[uuid].freq_hz
                == was.freq_hz && moded[uuid].bandwidth_hz == was.bandwidth_hz && moded[uuid].hidden
                == was.hidden && moded[uuid].decoder_kinds == was.decoder_kinds
            &&& wide.contains_key(uuid) && wide[uuid].bandwidth_hz == bandwidth_hz
                && wide[uuid].freq_hz == was.freq_hz && wide[uuid].mode == was.mode
                && wide[uuid].hidden == was.hidden && wide[uuid].decoder_kinds == was.decoder_kinds
        },
        !s.subs.contains_key(uuid) ==> after_command(
            s,
            VChanCmdView::SetFreq { uuid, freq_hz },
            written,
        ) == s && after_command(s, VChanCmdView::SetMode { uuid, mode }, written) == s
            && after_command(s, VChanCmdView::SetBandwidth { uuid, bandwidth_hz }, written) == s,
{
}

/// What a subscription and a message are told by is all of their fields.
pub proof fn subscriptions_and_messages_in_full(sub: ActiveVChanSub, m: VChanMessage)
    ensures
        sub@.freq_hz == sub.freq_hz && sub@.mode == sub.mode@ && sub@.bandwidth_hz
            == sub.bandwidth_hz && sub@.hidden == sub.hidden && sub@.decoder_kinds == list_view(
            sub.decoder_kinds@,
        ),
        m matches VChanMessage::Subscribe {
            uuid,
            freq_hz,
            mode,
            hidden,
            decoder_kinds,
            bandwidth_hz,
        } ==> m@ == (MessageView::Subscribe {
            uuid,
            sub: SubView {
                freq_hz,
                mode: mode@,
                bandwidth_hz,
                hidden,
                decoder_kinds: list_view(decoder_kinds@),
            },
        }),
        m matches VChanMessage::Unsubscribe(uuid) ==> m@ == MessageView::Unsubscribe(uuid),
        m matches VChanMessage::Remove(uuid) ==> m@ == MessageView::Remove(uuid),
        m matches VChanMessage::Freq { uuid, freq_hz } ==> m@ == (MessageView::Freq {
            uuid,
            freq_hz,
        }),
        m matches VChanMessage::Mode { uuid, mode } ==> m@ == (MessageView::Mode {
            uuid,
            mode: mode@,
        }),
        m matches VChanMessage::Bandwidth { uuid, bandwidth_hz } ==> m@ == (
        MessageView::Bandwidth { uuid, bandwidth_hz }),
{
}

/// What a connection remembers is what its table of subscriptions holds.
pub proof fn session_state_in_full(session: AudioSession, uuid: u128)
    ensures
        session.state().subs.contains_key(uuid) <==> session.active_subs@.contains_key(uuid),
        session.active_subs@.contains_key(uuid) ==> session.state().subs[uuid]
            == session.active_subs@[uuid]@,
        session.state().resubscribed.contains(uuid) <==> session.resubscribed@.contains(uuid),
{
}

/// Frames to transmit go to the rig that is selected.
pub proof fn the_selected_rig_transmits(selected: Option<Seq<char>>, rig_id: Seq<char>)
    ensures
        selected == Some(rig_id) ==> tx_goes_to(selected, rig_id),
        selected != Some(rig_id) ==> !tx_goes_to(selected, rig_id),
{
}

} // verus!
