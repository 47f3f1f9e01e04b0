//! The desktop frontend: what its window shows and what its buttons do.
use vstd::prelude::*;

use crate::commands::{CommandView, RigCommand};
use crate::text::{
    decimal_signed, i64_text, join2, join3, own, parse_unsigned, parsed, str_eq, to_uppercase, trim,
    trimmed, uppercased,
};

verus! {

// ---------------------------------------------------------------------------------------------
// Modes
// ---------------------------------------------------------------------------------------------

/// The mode of a receiver.
#[derive(Debug)]
pub enum RigMode {
    LSB,
    USB,
    CW,
    CWR,
    AM,
    WFM,
    FM,
    DIG,
    PKT,
    Other(String),
}

/// The name of a mode.
pub open spec fn mode_name(mode: RigMode) -> Seq<char> {
    match mode {
        RigMode::LSB => "LSB"@,
        RigMode::USB => "USB"@,
        RigMode::CW => "CW"@,
        RigMode::CWR => "CWR"@,
        RigMode::AM => "AM"@,
        RigMode::WFM => "WFM"@,
        RigMode::FM => "FM"@,
        RigMode::DIG => "DIG"@,
        RigMode::PKT => "PKT"@,
        RigMode::Other(name) => name@,
    }
}

/// The name of a mode.
pub fn mode_label(mode: &RigMode) -> (res: String)
    ensures
        res@ == mode_name(*mode),
{
    match mode {
        RigMode::LSB => own("LSB"),
        RigMode::USB => own("USB"),
        RigMode::CW => own("CW"),
        RigMode::CWR => own("CWR"),
        RigMode::AM => own("AM"),
        RigMode::WFM => own("WFM"),
        RigMode::FM => own("FM"),
        RigMode::DIG => own("DIG"),
        RigMode::PKT => own("PKT"),
        RigMode::Other(name) => name.clone(),
    }
}

/// Whether a mode is the one with the name, given in capitals. Digital and packet modes have a long
/// name too, and any other name is a mode of its own.
pub open spec fn is_mode(mode: RigMode, name: Seq<char>) -> bool {
    if name == "DIG"@ || name == "DIGI"@ {
        mode is DIG
    } else if name == "PKT"@ || name == "PACKET"@ {
        mode is PKT
    } else if name == "LSB"@ || name == "USB"@ || name == "CW"@ || name == "CWR"@ || name == "AM"@
        || name == "FM"@ || name == "WFM"@ {
        !(mode is Other) && mode_name(mode) == name
    } else {
        mode matches RigMode::Other(n) && n@ == name
    }
}

/// The short form of a mode's name.
pub open spec fn short_name(name: Seq<char>) -> Seq<char> {
    if name == "DIGI"@ {
        "DIG"@
    } else if name == "PACKET"@ {
        "PKT"@
    } else {
        name
    }
}

/// The mode with the name, given in capitals.
pub fn mode_from_upper(name: String) -> (res: RigMode)
    ensures
        is_mode(res, name@),
        mode_name(res) == short_name(name@),
{
    let s = name.as_str();
    proof {
        lemma_names_differ();
    }
    if str_eq(s, "LSB") {
        RigMode::LSB
    } else if str_eq(s, "USB") {
        RigMode::USB
    } else if str_eq(s, "CW") {
        RigMode::CW
    } else if str_eq(s, "CWR") {
        RigMode::CWR
    } else if str_eq(s, "AM") {
        RigMode::AM
    } else if str_eq(s, "FM") {
        RigMode::FM
    } else if str_eq(s, "WFM") {
        RigMode::WFM
    } else if str_eq(s, "DIG") || str_eq(s, "DIGI") {
        RigMode::DIG
    } else if str_eq(s, "PKT") || str_eq(s, "PACKET") {
        RigMode::PKT
    } else {
        RigMode::Other(name)
    }
}

/// The mode that a user has typed. Case and white space around it do not count.
pub fn parse_mode(value: &str) -> (res: RigMode)
    ensures
        is_mode(res, uppercased(trimmed(value@))),
        mode_name(res) == short_name(uppercased(trimmed(value@))),
{
    let t = trim(value);
    mode_from_upper(to_uppercase(t.as_str()))
}

/// The mode that is read from a mode's name has that name.
pub proof fn mode_names_read_back(mode: RigMode, read: RigMode)
    requires
        !(mode is Other),
        is_mode(read, mode_name(mode)),
    ensures
        mode_name(read) == mode_name(mode),
{
    lemma_names_differ();
}

// ---------------------------------------------------------------------------------------------
// VFOs
// ---------------------------------------------------------------------------------------------

/// One of the frequencies that a rig keeps.
#[derive(Debug)]
pub struct VfoEntry {
    pub name: String,
    /// The frequency, as it is shown.
    pub freq_text: String,
    pub mode: Option<RigMode>,
}

/// The frequencies that a rig keeps, and which of them is in use.
#[derive(Debug)]
pub struct Vfos {
    pub entries: Vec<VfoEntry>,
    pub active: Option<usize>,
}

/// The line for one frequency: a star where it is in use, its name, frequency and mode.
pub open spec fn vfo_line(entry: VfoEntry, is_active: bool) -> Seq<char> {
    (if is_active {
        "*"@
    } else {
        " "@
    }) + " "@ + entry.name@ + ": "@ + entry.freq_text@ + " "@ + (match entry.mode {
        Some(m) => mode_name(m),
        None => "--"@,
    })
}

/// The lines for the first `n` frequencies.
pub open spec fn vfo_lines(vfos: Vfos, n: int) -> Seq<char>
    decreases n,
{
    if n <= 0 {
        Seq::empty()
    } else {
        let line = vfo_line(vfos.entries@[n - 1], vfos.active == Some((n - 1) as usize));
        if n == 1 {
            line
        } else {
            vfo_lines(vfos, n - 1) + "\n"@ + line
        }
    }
}

fn vfo_line_text(entry: &VfoEntry, is_active: bool) -> (res: String)
    ensures
        res@ == vfo_line(*entry, is_active),
{
    let marker = if is_active {
        "*"
    } else {
        " "
    };
    let mode = match &entry.mode {
        Some(m) => mode_label(m),
        None => own("--"),
    };
    let head = join3(marker, " ", entry.name.as_str());
    let with_freq = join3(head.as_str(), ": ", entry.freq_text.as_str());
    join3(with_freq.as_str(), " ", mode.as_str())
}

/// What is shown of the frequencies that a rig keeps.
pub open spec fn vfo_text(vfos: Option<Vfos>) -> Seq<char> {
    match vfos {
        Some(v) => vfo_lines(v, v.entries@.len() as int),
        None => "--"@,
    }
}

/// What is shown of the frequencies that a rig keeps.
pub fn vfo_label(vfos: &Option<Vfos>) -> (res: String)
    ensures
        res@ == vfo_text(*vfos),
{
    match vfos {
        Some(v) => {
            let mut out = String::new();
            let mut i: usize = 0;
            assert(out@ =~= vfo_lines(*v, 0));
            while i < v.entries.len()
                invariant
                    i <= v.entries@.len(),
                    out@ == vfo_lines(*v, i as int),
                decreases v.entries@.len() - i,
            {
                let is_active = match v.active {
                    Some(a) => a == i,
                    None => false,
                };
                let line = vfo_line_text(&v.entries[i], is_active);
                if i == 0 {
                    out = line;
                } else {
                    out = join3(out.as_str(), "\n", line.as_str());
                }
                i = i + 1;
            }
            out
        },
        None => own("--"),
    }
}

// ---------------------------------------------------------------------------------------------
// What the window shows
// ---------------------------------------------------------------------------------------------

/// What is read from a rig.
#[derive(Debug)]
pub struct RigReading {
    pub freq_hz: u64,
    /// The frequency, as it is shown.
    pub freq_text: String,
    pub mode: RigMode,
    pub band: Option<String>,
    pub tx_enabled: bool,
    pub locked: Option<bool>,
    pub powered: Option<bool>,
    pub rx_sig: Option<i32>,
    pub tx_power: Option<u8>,
    pub tx_limit: Option<u8>,
    /// The standing wave ratio, as the bits of a double precision number.
    pub tx_swr_bits: u64,
    /// Whether the standing wave ratio differs from the one that is shown.
    pub tx_swr_differs: bool,
    pub tx_alc: Option<u8>,
    pub vfos: Option<Vfos>,
}

/// What the window shows.
#[derive(Debug)]
pub struct RigStateModel {
    pub freq_hz: u64,
    pub freq_text: String,
    pub mode: String,
    pub band: String,
    pub tx_enabled: bool,
    pub locked: bool,
    pub powered: bool,
    pub rx_sig: i32,
    pub tx_power: i32,
    pub tx_limit: i32,
    /// The standing wave ratio, as the bits of a double precision number.
    pub tx_swr_bits: u64,
    pub tx_alc: i32,
    pub vfo: String,
}

/// What the window says.
#[verifier::ext_equal]
pub struct ModelView {
    pub freq_hz: u64,
    pub freq_text: Seq<char>,
    pub mode: Seq<char>,
    pub band: Seq<char>,
    pub tx_enabled: bool,
    pub locked: bool,
    pub powered: bool,
    pub rx_sig: i32,
    pub tx_power: i32,
    pub tx_limit: i32,
    pub tx_swr_bits: u64,
    pub tx_alc: i32,
    pub vfo: Seq<char>,
}

impl View for RigStateModel {
    type V = ModelView;

    open spec fn view(&self) -> ModelView {
        ModelView {
            freq_hz: self.freq_hz,
            freq_text: self.freq_text@,
            mode: self.mode@,
            band: self.band@,
            tx_enabled: self.tx_enabled,
            locked: self.locked,
            powered: self.powered,
            rx_sig: self.rx_sig,
            tx_power: self.tx_power,
            tx_limit: self.tx_limit,
            tx_swr_bits: self.tx_swr_bits,
            tx_alc: self.tx_alc,
            vfo: self.vfo@,
        }
    }
}

impl Default for RigStateModel {
    fn default() -> (res: Self)
        ensures
            res@ == (ModelView {
                freq_hz: 0,
                freq_text: "-- Hz"@,
                mode: "--"@,
                band: "--"@,
                tx_enabled: false,
                locked: false,
                powered: false,
                rx_sig: 0,
                tx_power: 0,
                tx_limit: 0,
                tx_swr_bits: 0,
                tx_alc: 0,
                vfo: "--"@,
            }),
    {
        RigStateModel {
            freq_hz: 0,
            freq_text: own("-- Hz"),
            mode: own("--"),
            band: own("--"),
            tx_enabled: false,
            locked: false,
            powered: false,
            rx_sig: 0,
            tx_power: 0,
            tx_limit: 0,
            tx_swr_bits: 0,
            tx_alc: 0,
            vfo: own("--"),
        }
    }
}

/// A small number that may be missing; 0 where it is.
pub open spec fn or_zero(n: Option<u8>) -> i32 {
    match n {
        Some(v) => v as i32,
        None => 0,
    }
}

fn number_or_zero(n: Option<u8>) -> (res: i32)
    ensures
        res == or_zero(n),
{
    match n {
        Some(v) => v as i32,
        None => 0,
    }
}

fn flag_or_off(flag: Option<bool>) -> (res: bool)
    ensures
        res == (flag == Some(true)),
{
    match flag {
        Some(f) => f,
        None => false,
    }
}

/// Puts a text in place of another. The result says whether they differ.
fn replace_text(shown: &mut String, text: String) -> (res: bool)
    ensures
        final(shown)@ == text@,
        res == (old(shown)@ != text@),
{
    let differs = !str_eq(shown.as_str(), text.as_str());
    *shown = text;
    differs
}

/// Puts a flag in place of another. The result says whether they differ.
fn replace_flag(shown: &mut bool, flag: bool) -> (res: bool)
    ensures
        *final(shown) == flag,
        res == (*old(shown) != flag),
{
    let differs = *shown != flag;
    *shown = flag;
    differs
}

/// Puts a number in place of another. The result says whether they differ.
fn replace_number(shown: &mut i32, number: i32) -> (res: bool)
    ensures
        *final(shown) == number,
        res == (*old(shown) != number),
{
    let differs = *shown != number;
    *shown = number;
    differs
}

/// What the window shows after a reading. The text of the frequency changes with the frequency, and
/// the standing wave ratio where it differs.
pub open spec fn shown(before: ModelView, r: RigReading) -> ModelView {
    ModelView {
        freq_hz: r.freq_hz,
        freq_text: if r.freq_hz != before.freq_hz {
            r.freq_text@
        } else {
            before.freq_text
        },
        mode: mode_name(r.mode),
        band: match r.band {
            Some(b) => b@,
            None => "--"@,
        },
        tx_enabled: r.tx_enabled,
        locked: r.locked == Some(true),
        powered: r.powered == Some(true),
        rx_sig: match r.rx_sig {
            Some(s) => s,
            None => 0,
        },
        tx_power: or_zero(r.tx_power),
        tx_limit: or_zero(r.tx_limit),
        tx_swr_bits: if r.tx_swr_differs {
            r.tx_swr_bits
        } else {
            before.tx_swr_bits
        },
        tx_alc: or_zero(r.tx_alc),
        vfo: vfo_text(r.vfos),
    }
}

/// Whether a reading changes what the window shows.
pub open spec fn changes(before: ModelView, r: RigReading) -> bool {
    let after = shown(before, r);
    ||| after.freq_hz != before.freq_hz
    ||| after.mode != before.mode
    ||| after.band != before.band
    ||| after.tx_enabled != before.tx_enabled
    ||| after.locked != before.locked
    ||| after.powered != before.powered
    ||| after.rx_sig != before.rx_sig
    ||| after.tx_power != before.tx_power
    ||| after.tx_limit != before.tx_limit
    ||| r.tx_swr_differs
    ||| after.tx_alc != before.tx_alc
    ||| after.vfo != before.vfo
}

impl RigStateModel {
    /// Takes over a reading. The result says whether anything changed.
    pub fn update(&mut self, r: &RigReading) -> (res: bool)
        ensures
            final(self)@ == shown(old(self)@, *r),
            res == changes(old(self)@, *r),
    {
        let freq = self.freq_hz != r.freq_hz;
        if freq {
            self.freq_hz = r.freq_hz;
            self.freq_text = r.freq_text.clone();
        }
        let mode = replace_text(&mut self.mode, mode_label(&r.mode));
        let band_name = match &r.band {
            Some(b) => b.clone(),
            None => own("--"),
        };
        let band = replace_text(&mut self.band, band_name);
        let tx_enabled = replace_flag(&mut self.tx_enabled, r.tx_enabled);
        let locked = replace_flag(&mut self.locked, flag_or_off(r.locked));
        let powered = replace_flag(&mut self.powered, flag_or_off(r.powered));
        let signal: i32 = match r.rx_sig {
            Some(s) => s,
            None => 0,
        };
        let rx_sig = replace_number(&mut self.rx_sig, signal);
        let tx_power = replace_number(&mut self.tx_power, number_or_zero(r.tx_power));
        let tx_limit = replace_number(&mut self.tx_limit, number_or_zero(r.tx_limit));
        if r.tx_swr_differs {
            self.tx_swr_bits = r.tx_swr_bits;
        }
        let tx_alc = replace_number(&mut self.tx_alc, number_or_zero(r.tx_alc));
        let vfo = replace_text(&mut self.vfo, vfo_label(&r.vfos));
        freq || mode || band || tx_enabled || locked || powered || rx_sig || tx_power || tx_limit
            || r.tx_swr_differs || tx_alc || vfo
    }
}

/// Where a reading is said to change nothing, the window shows the same as before.
pub proof fn unchanged_means_same(before: ModelView, r: RigReading)
    requires
        !changes(before, r),
    ensures
        shown(before, r) == before,
{
}

/// Where a reading is said to change something, the window shows something else than before. A
/// standing wave ratio that differs from the one shown has other bits.
pub proof fn changed_means_different(before: ModelView, r: RigReading)
    requires
        changes(before, r),
        r.tx_swr_differs ==> r.tx_swr_bits != before.tx_swr_bits,
    ensures
        shown(before, r) != before,
{
}

/// Whatever comparison of standing wave ratios the readings are made with, as long as no ratio differs
/// from itself: a reading is said to change something exactly where the window shows something else
/// than before, the ratio shown afterwards does not differ from the one read, and the same reading
/// taken over again is said to change nothing and changes nothing.
pub proof fn readings_settle(
    before: ModelView,
    r: RigReading,
    again: RigReading,
    differs: spec_fn(u64, u64) -> bool,
)
    requires
        !differs(r.tx_swr_bits, r.tx_swr_bits),
        r.tx_swr_differs == differs(before.tx_swr_bits, r.tx_swr_bits),
        again == (RigReading {
            tx_swr_differs: differs(shown(before, r).tx_swr_bits, r.tx_swr_bits),
            ..r
        }),
    ensures
        changes(before, r) <==> shown(before, r) != before,
        !differs(shown(before, r).tx_swr_bits, r.tx_swr_bits),
        !changes(shown(before, r), again),
        shown(shown(before, r), again) == shown(before, r),
{
}

/// The texts of the window.
#[derive(Debug)]
pub struct Labels {
    pub freq: String,
    pub mode: String,
    pub band: String,
    pub ptt: &'static str,
    pub lock: &'static str,
    pub power: &'static str,
    pub rx_sig: String,
    pub tx_power: String,
    pub tx_limit: String,
    pub tx_swr: String,
    pub tx_alc: String,
    pub vfo: String,
}

/// The texts of the window, given the text of the standing wave ratio.
pub fn labels(model: &RigStateModel, swr_text: &str) -> (res: Labels)
    ensures
        res.freq@ == model@.freq_text,
        res.mode@ == "Mode: "@ + model@.mode,
        res.band@ == "Band: "@ + model@.band,
        res.ptt@ == (if model@.tx_enabled {
            "PTT: TX"@
        } else {
            "PTT: RX"@
        }),
        res.lock@ == (if model@.locked {
            "Lock: ON"@
        } else {
            "Lock: OFF"@
        }),
        res.power@ == (if model@.powered {
            "Power: ON"@
        } else {
            "Power: OFF"@
        }),
        res.rx_sig@ == "RX Sig: "@ + decimal_signed(model@.rx_sig as int),
        res.tx_power@ == "TX Power: "@ + decimal_signed(model@.tx_power as int),
        res.tx_limit@ == "TX Limit: "@ + decimal_signed(model@.tx_limit as int),
        res.tx_swr@ == "SWR: "@ + swr_text@,
        res.tx_alc@ == "ALC: "@ + decimal_signed(model@.tx_alc as int),
        res.vfo@ == "VFO: "@ + model@.vfo,
{
    let rx_sig = i64_text(model.rx_sig as i64);
    let tx_power = i64_text(model.tx_power as i64);
    let tx_limit = i64_text(model.tx_limit as i64);
    let tx_alc = i64_text(model.tx_alc as i64);
    Labels {
        freq: model.freq_text.clone(),
        mode: join2("Mode: ", model.mode.as_str()),
        band: join2("Band: ", model.band.as_str()),
        ptt: if model.tx_enabled {
            "PTT: TX"
        } else {
            "PTT: RX"
        },
        lock: if model.locked {
            "Lock: ON"
        } else {
            "Lock: OFF"
        },
        power: if model.powered {
            "Power: ON"
        } else {
            "Power: OFF"
        },
        rx_sig: join2("RX Sig: ", rx_sig.as_str()),
        tx_power: join2("TX Power: ", tx_power.as_str()),
        tx_limit: join2("TX Limit: ", tx_limit.as_str()),
        tx_swr: join2("SWR: ", swr_text),
        tx_alc: join2("ALC: ", tx_alc.as_str()),
        vfo: join2("VFO: ", model.vfo.as_str()),
    }
}

// ---------------------------------------------------------------------------------------------
// Buttons
// ---------------------------------------------------------------------------------------------

/// What a button does.
#[derive(Clone, Copy, Debug, PartialEq, Eq, Structural)]
pub enum ButtonAction {
    TogglePtt,
    TogglePower,
    ToggleVfo,
    ToggleLock,
    SetFreq,
    SetMode,
    SetTxLimit,
}

/// The buttons of the window, each with what it does and who is told.
#[derive(Debug)]
pub struct ButtonTable<S> {
    pub entries: Vec<(ButtonAction, S)>,
}

impl<S> ButtonTable<S> {
    /// There are no buttons.
    pub fn new() -> (res: Self)
        ensures
            res.entries@.len() == 0,
    {
        ButtonTable { entries: Vec::new() }
    }

    /// Adds a button, and gives its number.
    pub fn register_button_action(&mut self, action: ButtonAction, sender: S) -> (res: usize)
        ensures
            res == old(self).entries@.len(),
            final(self).entries@ == old(self).entries@.push((action, sender)),
    {
        let n: usize = self.entries.len();
        self.entries.push((action, sender));
        n
    }

    /// What the button with the number does, and who is told. There is none with a negative number
    /// or one that was never given.
    pub fn invoke_button_action(&self, tag: isize) -> (res: Option<(ButtonAction, &S)>)
        ensures
            match res {
                Some((action, sender)) => 0 <= tag < self.entries@.len() && (action, *sender)
                    == self.entries@[tag as int],
                None => tag < 0 || tag >= self.entries@.len(),
            },
    {
        if tag < 0 {
            return None;
        }
        let i: usize = tag as usize;
        if i < self.entries.len() {
            let entry = &self.entries[i];
            Some((entry.0, &entry.1))
        } else {
            None
        }
    }
}

/// A button does what it was registered for, however many are added afterwards.
pub proof fn buttons_keep_their_action<S>(
    before: Seq<(ButtonAction, S)>,
    tag: int,
    action: ButtonAction,
    sender: S,
)
    requires
        0 <= tag < before.len(),
    ensures
        before.push((action, sender))[tag] == before[tag],
{
}

/// What the user has typed into the window.
#[derive(Debug)]
pub struct Inputs {
    pub freq: String,
    pub mode: String,
    pub tx_limit: String,
}

/// The command that a button gives, where it gives one. A typed frequency or limit must be a number,
/// and a frequency must not be 0.
pub open spec fn button_command(action: ButtonAction, model: ModelView, inputs: Inputs) -> Option<
    CommandView,
> {
    match action {
        ButtonAction::TogglePtt => Some(CommandView::SetPtt(!model.tx_enabled)),
        ButtonAction::TogglePower => Some(
            if model.powered {
                CommandView::PowerOff
            } else {
                CommandView::PowerOn
            },
        ),
        ButtonAction::ToggleVfo => Some(CommandView::ToggleVfo),
        ButtonAction::ToggleLock => Some(
            if model.locked {
                CommandView::Unlock
            } else {
                CommandView::Lock
            },
        ),
        ButtonAction::SetFreq => match parsed(trimmed(inputs.freq@), u64::MAX as nat) {
            Some(hz) => if hz > 0 {
                Some(CommandView::SetFreq(hz as u64))
            } else {
                None
            },
            None => None,
        },
        ButtonAction::SetMode => Some(
            CommandView::SetMode(short_name(uppercased(trimmed(inputs.mode@)))),
        ),
        ButtonAction::SetTxLimit => match parsed(trimmed(inputs.tx_limit@), u8::MAX as nat) {
            Some(limit) => Some(CommandView::SetTxLimit(limit as u8)),
            None => None,
        },
    }
}

/// The command that a button gives, where it gives one.
pub fn handle_action(action: ButtonAction, model: &RigStateModel, inputs: &Inputs) -> (res: Option<
    RigCommand,
>)
    ensures
        (match res {
            Some(c) => Some(c@),
            None => None,
        }) == button_command(action, model@, *inputs),
{
    match action {
        ButtonAction::TogglePtt => Some(RigCommand::SetPtt(!model.tx_enabled)),
        ButtonAction::TogglePower => if model.powered {
            Some(RigCommand::PowerOff)
        } else {
            Some(RigCommand::PowerOn)
        },
        ButtonAction::ToggleVfo => Some(RigCommand::ToggleVfo),
        ButtonAction::ToggleLock => if model.locked {
            Some(RigCommand::Unlock)
        } else {
            Some(RigCommand::Lock)
        },
        ButtonAction::SetFreq => {
            let t = trim(inputs.freq.as_str());
            match parse_unsigned(t.as_str(), u64::MAX) {
                Some(hz) => if hz > 0 {
                    Some(RigCommand::SetFreq(hz))
                } else {
                    None
                },
                None => None,
            }
        },
        ButtonAction::SetMode => {
            let mode = parse_mode(inputs.mode.as_str());
            Some(RigCommand::SetMode(mode_label(&mode)))
        },
        ButtonAction::SetTxLimit => {
            let t = trim(inputs.tx_limit.as_str());
            match parse_unsigned(t.as_str(), 255) {
                Some(limit) => Some(RigCommand::SetTxLimit(limit as u8)),
                None => None,
            }
        },
    }
}

// ---------------------------------------------------------------------------------------------
// What the window comes to
// ---------------------------------------------------------------------------------------------

/// Modes go by their names.
pub proof fn names_of_modes(name: String)
    ensures
        mode_name(RigMode::LSB) == "LSB"@,
        mode_name(RigMode::USB) == "USB"@,
        mode_name(RigMode::CW) == "CW"@,
        mode_name(RigMode::CWR) == "CWR"@,
        mode_name(RigMode::AM) == "AM"@,
        mode_name(RigMode::WFM) == "WFM"@,
        mode_name(RigMode::FM) == "FM"@,
        mode_name(RigMode::DIG) == "DIG"@,
        mode_name(RigMode::PKT) == "PKT"@,
        mode_name(RigMode::Other(name)) == name@,
{
}

/// A name is read as the mode that goes by it. Two modes have a second name, and a name that is none
/// of these is a mode of its own.
pub proof fn names_are_read_as_modes(mode: RigMode, name: Seq<char>)
    requires
        is_mode(mode, name),
    ensures
        name == "LSB"@ ==> mode is LSB,
        name == "USB"@ ==> mode is USB,
        name == "CW"@ ==> mode is CW,
        name == "CWR"@ ==> mode is CWR,
        name == "AM"@ ==> mode is AM,
        name == "WFM"@ ==> mode is WFM,
        name == "FM"@ ==> mode is FM,
        name == "DIG"@ || name == "DIGI"@ ==> mode is DIG,
        name == "PKT"@ || name == "PACKET"@ ==> mode is PKT,
        mode matches RigMode::Other(n) ==> n@ == name,
        mode !is Other ==> mode_name(mode) == short_name(name),
        short_name("DIGI"@) == "DIG"@,
        short_name("PACKET"@) == "PKT"@,
        name != "DIGI"@ && name != "PACKET"@ ==> short_name(name) == name,
{
    lemma_names_differ();
}

/// The oscillators stand one to a line, the active one with a star before it.
pub proof fn oscillators_line_by_line(vfos: Vfos, n: int, entry: VfoEntry, on: bool)
    ensures
        vfo_text(None) == "--"@,
        vfo_text(Some(vfos)) == vfo_lines(vfos, vfos.entries@.len() as int),
        vfo_lines(vfos, 0).len() == 0,
        vfo_lines(vfos, 1) == vfo_line(vfos.entries@[0], vfos.active == Some(0usize)),
        1 <= n < vfos.entries@.len() ==> vfo_lines(vfos, n + 1) == vfo_lines(vfos, n) + "\n"@
            + vfo_line(vfos.entries@[n], vfos.active == Some(n as usize)),
        on && entry.mode is Some ==> vfo_line(entry, on) == "*"@ + " "@ + entry.name@ + ": "@
            + entry.freq_text@ + " "@ + mode_name(entry.mode->0),
        !on && entry.mode is Some ==> vfo_line(entry, on) == " "@ + " "@ + entry.name@ + ": "@
            + entry.freq_text@ + " "@ + mode_name(entry.mode->0),
        on && entry.mode is None ==> vfo_line(entry, on) == "*"@ + " "@ + entry.name@ + ": "@
            + entry.freq_text@ + " "@ + "--"@,
{
}

/// What is shown is what the rig says: a dash for what it does not say, zero for a number and off for
/// a switch. The text of the frequency stays while the frequency does.
pub proof fn readings_are_shown(before: ModelView, r: RigReading)
    ensures
        ({
            let s = shown(before, r);
            &&& s.freq_hz == r.freq_hz
            &&& r.freq_hz != before.freq_hz ==> s.freq_text == r.freq_text@
            &&& r.freq_hz == before.freq_hz ==> s.freq_text == before.freq_text
            &&& s.mode == mode_name(r.mode)
            &&& r.band matches Some(b) ==> s.band == b@
            &&& r.band is None ==> s.band == "--"@
            &&& s.tx_enabled == r.tx_enabled
            &&& s.locked <==> r.locked == Some(true)
            &&& s.powered <==> r.powered == Some(true)
            &&& r.rx_sig matches Some(v) ==> s.rx_sig == v
            &&& r.rx_sig is None ==> s.rx_sig == 0
            &&& r.tx_power matches Some(v) ==> s.tx_power == v
            &&& r.tx_power is None ==> s.tx_power == 0
            &&& r.tx_limit matches Some(v) ==> s.tx_limit == v
            &&& r.tx_limit is None ==> s.tx_limit == 0
            &&& r.tx_alc matches Some(v) ==> s.tx_alc == v
            &&& r.tx_alc is None ==> s.tx_alc == 0
            &&& r.tx_swr_differs ==> s.tx_swr_bits == r.tx_swr_bits
            &&& !r.tx_swr_differs ==> s.tx_swr_bits == before.tx_swr_bits
            &&& s.vfo == vfo_text(r.vfos)
        }),
{
}

/// What the window is told by is all of its fields.
pub proof fn models_in_full(m: RigStateModel)
    ensures
        m@.freq_hz == m.freq_hz,
        m@.freq_text == m.freq_text@,
        m@.mode == m.mode@,
        m@.band == m.band@,
        m@.tx_enabled == m.tx_enabled,
        m@.locked == m.locked,
        m@.powered == m.powered,
        m@.rx_sig == m.rx_sig,
        m@.tx_power == m.tx_power,
        m@.tx_limit == m.tx_limit,
        m@.tx_swr_bits == m.tx_swr_bits,
        m@.tx_alc == m.tx_alc,
        m@.vfo == m.vfo@,
{
}

/// A switch turns what is shown into its opposite.
pub proof fn switches_turn_what_is_shown(model: ModelView, inputs: Inputs)
    ensures
        button_command(ButtonAction::TogglePtt, model, inputs) == Some(
            CommandView::SetPtt(!model.tx_enabled),
        ),
        model.powered ==> button_command(ButtonAction::TogglePower, model, inputs) == Some(
            CommandView::PowerOff,
        ),
        !model.powered ==> button_command(ButtonAction::TogglePower, model, inputs) == Some(
            CommandView::PowerOn,
        ),
        model.locked ==> button_command(ButtonAction::ToggleLock, model, inputs) == Some(
            CommandView::Unlock,
        ),
        !model.locked ==> button_command(ButtonAction::ToggleLock, model, inputs) == Some(
            CommandView::Lock,
        ),
        button_command(ButtonAction::ToggleVfo, model, inputs) == Some(CommandView::ToggleVfo),
{
}

/// A setting is made where what was entered can be read, white space around it aside: a frequency
/// above zero, a limit up to 255, and any mode.
pub proof fn settings_are_read(model: ModelView, inputs: Inputs)
    ensures
        ({
            let hz = parsed(trimmed(inputs.freq@), 0xffff_ffff_ffff_ffff);
            let limit = parsed(trimmed(inputs.tx_limit@), 255);
            &&& hz is Some && hz->0 > 0 ==> button_command(ButtonAction::SetFreq, model, inputs)
                == Some(CommandView::SetFreq(hz->0 as u64))
            &&& hz is None || hz->0 == 0 ==> button_command(
                ButtonAction::SetFreq,
                model,
                inputs,
            ) is None
            &&& limit is Some ==> button_command(ButtonAction::SetTxLimit, model, inputs) == Some(
                CommandView::SetTxLimit(limit->0 as u8),
            )
            &&& limit is None ==> button_command(ButtonAction::SetTxLimit, model, inputs) is None
            &&& button_command(ButtonAction::SetMode, model, inputs) == Some(
                CommandView::SetMode(short_name(uppercased(trimmed(inputs.mode@)))),
            )
        }),
{
}

proof fn lemma_names_differ()
    ensures
        "LSB"@ != "USB"@,
        "LSB"@ != "CW"@,
        "LSB"@ != "CWR"@,
        "LSB"@ != "AM"@,
        "LSB"@ != "WFM"@,
        "LSB"@ != "FM"@,
        "LSB"@ != "DIG"@,
        "LSB"@ != "DIGI"@,
        "LSB"@ != "PKT"@,
        "LSB"@ != "PACKET"@,
        "USB"@ != "CW"@,
        "USB"@ != "CWR"@,
        "USB"@ != "AM"@,
        "USB"@ != "WFM"@,
        "USB"@ != "FM"@,
        "USB"@ != "DIG"@,
        "USB"@ != "DIGI"@,
        "USB"@ != "PKT"@,
        "USB"@ != "PACKET"@,
        "CW"@ != "CWR"@,
        "CW"@ != "AM"@,
        "CW"@ != "WFM"@,
        "CW"@ != "FM"@,
        "CW"@ != "DIG"@,
        "CW"@ != "DIGI"@,
        "CW"@ != "PKT"@,
        "CW"@ != "PACKET"@,
        "CWR"@ != "AM"@,
        "CWR"@ != "WFM"@,
        "CWR"@ != "FM"@,
        "CWR"@ != "DIG"@,
        "CWR"@ != "DIGI"@,
        "CWR"@ != "PKT"@,
        "CWR"@ != "PACKET"@,
        "AM"@ != "WFM"@,
        "AM"@ != "FM"@,
        "AM"@ != "DIG"@,
        "AM"@ != "DIGI"@,
        "AM"@ != "PKT"@,
        "AM"@ != "PACKET"@,
        "WFM"@ != "FM"@,
        "WFM"@ != "DIG"@,
        "WFM"@ != "DIGI"@,
        "WFM"@ != "PKT"@,
        "WFM"@ != "PACKET"@,
        "FM"@ != "DIG"@,
        "FM"@ != "DIGI"@,
        "FM"@ != "PKT"@,
        "FM"@ != "PACKET"@,
        "DIG"@ != "DIGI"@,
        "DIG"@ != "PKT"@,
        "DIG"@ != "PACKET"@,
        "DIGI"@ != "PKT"@,
        "DIGI"@ != "PACKET"@,
        "PKT"@ != "PACKET"@,
{
    reveal_strlit("LSB");
    reveal_strlit("USB");
    reveal_strlit("CW");
    reveal_strlit("CWR");
    reveal_strlit("AM");
    reveal_strlit("WFM");
    reveal_strlit("FM");
    reveal_strlit("DIG");
    reveal_strlit("DIGI");
    reveal_strlit("PKT");
    reveal_strlit("PACKET");
    assert("LSB"@[0] != "USB"@[0]);
    assert("LSB"@.len() != "CW"@.len());
    assert("LSB"@[0] != "CWR"@[0]);
    assert("LSB"@.len() != "AM"@.len());
    assert("LSB"@[0] != "WFM"@[0]);
    assert("LSB"@.len() != "FM"@.len());
    assert("LSB"@[0] != "DIG"@[0]);
    assert("LSB"@.len() != "DIGI"@.len());
    assert("LSB"@[0] != "PKT"@[0]);
    assert("LSB"@.len() != "PACKET"@.len());
    assert("USB"@.len() != "CW"@.len());
    assert("USB"@[0] != "CWR"@[0]);
    assert("USB"@.len() != "AM"@.len());
    assert("USB"@[0] != "WFM"@[0]);
    assert("USB"@.len() != "FM"@.len());
    assert("USB"@[0] != "DIG"@[0]);
    assert("USB"@.len() != "DIGI"@.len());
    assert("USB"@[0] != "PKT"@[0]);
    assert("USB"@.len() != "PACKET"@.len());
    assert("CW"@.len() != "CWR"@.len());
    assert("CW"@[0] != "AM"@[0]);
    assert("CW"@.len() != "WFM"@.len());
    assert("CW"@[0] != "FM"@[0]);
    assert("CW"@.len() != "DIG"@.len());
    assert("CW"@.len() != "DIGI"@.len());
    assert("CW"@.len() != "PKT"@.len());
    assert("CW"@.len() != "PACKET"@.len());
    assert("CWR"@.len() != "AM"@.len());
    assert("CWR"@[0] != "WFM"@[0]);
    assert("CWR"@.len() != "FM"@.len());
    assert("CWR"@[0] != "DIG"@[0]);
    assert("CWR"@.len() != "DIGI"@.len());
    assert("CWR"@[0] != "PKT"@[0]);
    assert("CWR"@.len() != "PACKET"@.len());
    assert("AM"@.len() != "WFM"@.len());
    assert("AM"@[0] != "FM"@[0]);
    assert("AM"@.len() != "DIG"@.len());
    assert("AM"@.len() != "DIGI"@.len());
    assert("AM"@.len() != "PKT"@.len());
    assert("AM"@.len() != "PACKET"@.len());
    assert("WFM"@.len() != "FM"@.len());
    assert("WFM"@[0] != "DIG"@[0]);
    assert("WFM"@.len() != "DIGI"@.len());
    assert("WFM"@[0] != "PKT"@[0]);
    assert("WFM"@.len() != "PACKET"@.len());
    assert("FM"@.len() != "DIG"@.len());
    assert("FM"@.len() != "DIGI"@.len());
    assert("FM"@.len() != "PKT"@.len());
    assert("FM"@.len() != "PACKET"@.len());
    assert("DIG"@.len() != "DIGI"@.len());
    assert("DIG"@[0] != "PKT"@[0]);
    assert("DIG"@.len() != "PACKET"@.len());
    assert("DIGI"@.len() != "PKT"@.len());
    assert("DIGI"@.len() != "PACKET"@.len());
    assert("PKT"@.len() != "PACKET"@.len());
}

} // verus!
